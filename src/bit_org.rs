use vstd::prelude::*;
use vstd::arithmetic::div_mod::{lemma_div_denominator, lemma_mod_breakdown};
use vstd::arithmetic::power2::{pow2, lemma_pow2_unfold, lemma_pow2_pos, lemma2_to64};
use vstd::bits::lemma_u64_shr_is_div;
use std::collections::VecDeque;

verus! {

/// The `width` low bits of `value`, most significant first.
pub open spec fn value_bits(width: nat, value: nat) -> Seq<bool> {
    Seq::new(width, |i: int| (value / pow2((width - 1 - i) as nat)) % 2 == 1)
}

/// The number that a sequence of bits spells, most significant first.
pub open spec fn bits_value(bits: Seq<bool>) -> nat
    decreases bits.len(),
{
    if bits.len() == 0 {
        0
    } else {
        2 * bits_value(bits.drop_last()) + if bits.last() { 1nat } else { 0nat }
    }
}

/// The eight bits of a byte, most significant first.
pub open spec fn byte_bits(b: u8) -> Seq<bool> {
    value_bits(8, b as nat)
}

/// The bits of a byte string, each byte most significant bit first.
pub open spec fn bytes_bits(bytes: Seq<u8>) -> Seq<bool>
    decreases bytes.len(),
{
    if bytes.len() == 0 {
        Seq::empty()
    } else {
        byte_bits(bytes[0]) + bytes_bits(bytes.skip(1))
    }
}

/// The bytes packed from a bit stream: one for each whole group of eight bits.
pub open spec fn bits_bytes(bits: Seq<bool>) -> Seq<u8> {
    Seq::new(bits.len() / 8, |k: int| bits_value(bits.subrange(8 * k, 8 * k + 8)) as u8)
}

pub proof fn lemma_bits_value_bound(bits: Seq<bool>)
    ensures
        bits_value(bits) < pow2(bits.len()),
    decreases bits.len(),
{
    if bits.len() > 0 {
        lemma_bits_value_bound(bits.drop_last());
        lemma_pow2_unfold(bits.len());
    } else {
        lemma2_to64();
    }
}

/// Spelling out the bits of the value of a bit sequence gives the sequence back.
pub proof fn lemma_value_bits_of_bits_value(bits: Seq<bool>)
    ensures
        value_bits(bits.len(), bits_value(bits)) == bits,
    decreases bits.len(),
{
    let n = bits.len();
    if n > 0 {
        let init = bits.drop_last();
        lemma_value_bits_of_bits_value(init);
        let b: nat = if bits.last() { 1 } else { 0 };
        let v = bits_value(bits);
        assert(v == 2 * bits_value(init) + b);
        assert forall|i: int| 0 <= i < n implies #[trigger] value_bits(n, v)[i] == bits[i] by {
            if i == n - 1 {
                lemma2_to64();
                assert(v / pow2(0) == v);
                assert(v % 2 == b);
            } else {
                let e = (n - 2 - i) as nat;
                lemma_pow2_unfold(e + 1);
                lemma_pow2_pos(e);
                assert((n - 1 - i) as nat == e + 1);
                lemma_div_denominator(v as int, 2, pow2(e) as int);
                assert(v / 2 == bits_value(init));
                assert(v / pow2(e + 1) == bits_value(init) / pow2(e));
                assert(value_bits((n - 1) as nat, bits_value(init))[i] == init[i]);
                assert(((n - 1) as nat - 1 - i) as nat == e);
            }
        }
        assert(value_bits(n, v) =~= bits);
    } else {
        assert(value_bits(0, 0) =~= bits);
    }
}

/// The value of the `width` low bits of `value`.
pub proof fn lemma_bits_value_of_value_bits(width: nat, value: nat)
    ensures
        bits_value(value_bits(width, value)) == value % pow2(width),
    decreases width,
{
    if width == 0 {
        lemma2_to64();
        assert(value_bits(0, value).len() == 0);
    } else {
        let w1 = (width - 1) as nat;
        let s = value_bits(width, value);
        lemma_bits_value_of_value_bits(w1, value / 2);
        assert forall|i: int| 0 <= i < w1 implies #[trigger] s.drop_last()[i] == value_bits(w1, value / 2)[i] by {
            let e = (w1 - 1 - i) as nat;
            lemma_pow2_unfold(e + 1);
            lemma_pow2_pos(e);
            assert((width - 1 - i) as nat == e + 1);
            lemma_div_denominator(value as int, 2, pow2(e) as int);
        }
        assert(s.drop_last() =~= value_bits(w1, value / 2));
        lemma2_to64();
        assert(value / pow2(0) == value);
        assert(s.last() == (value % 2 == 1));
        lemma_pow2_unfold(width);
        lemma_pow2_pos(w1);
        lemma_mod_breakdown(value as int, 2, pow2(w1) as int);
    }
}

pub proof fn lemma_bytes_bits_len(bytes: Seq<u8>)
    ensures
        bytes_bits(bytes).len() == 8 * bytes.len(),
    decreases bytes.len(),
{
    if bytes.len() > 0 {
        lemma_bytes_bits_len(bytes.skip(1));
    }
}

pub proof fn lemma_bytes_bits_push(bytes: Seq<u8>, b: u8)
    ensures
        bytes_bits(bytes.push(b)) == bytes_bits(bytes) + byte_bits(b),
    decreases bytes.len(),
{
    if bytes.len() == 0 {
        assert(bytes.push(b).skip(1) =~= Seq::<u8>::empty());
        assert(bytes_bits(Seq::<u8>::empty()) =~= Seq::<bool>::empty());
        assert(bytes_bits(bytes.push(b)) =~= byte_bits(b));
        assert(bytes_bits(bytes) + byte_bits(b) =~= byte_bits(b));
    } else {
        lemma_bytes_bits_push(bytes.skip(1), b);
        assert(bytes.push(b).skip(1) =~= bytes.skip(1).push(b));
        assert(bytes_bits(bytes.push(b)) =~= bytes_bits(bytes) + byte_bits(b));
    }
}

/// A byte read back from its eight bits.
pub proof fn lemma_byte_bits_value(b: u8)
    ensures
        bits_value(byte_bits(b)) == b as nat,
{
    lemma_bits_value_of_value_bits(8, b as nat);
    lemma2_to64();
}

/// Packing the bits of a byte string gives the byte string back.
pub proof fn lemma_bits_bytes_of_bytes_bits(bytes: Seq<u8>)
    ensures
        bits_bytes(bytes_bits(bytes)) == bytes,
    decreases bytes.len(),
{
    lemma_bytes_bits_len(bytes);
    if bytes.len() > 0 {
        let rest = bytes.skip(1);
        lemma_bits_bytes_of_bytes_bits(rest);
        lemma_bytes_bits_len(rest);
        let all = bytes_bits(bytes);
        assert forall|k: int| 0 <= k < bytes.len() implies #[trigger] bits_bytes(all)[k] == bytes[k] by {
            if k == 0 {
                assert(all.subrange(0, 8) =~= byte_bits(bytes[0]));
                lemma_byte_bits_value(bytes[0]);
            } else {
                assert(all.subrange(8 * k, 8 * k + 8) =~= bytes_bits(rest).subrange(
                    8 * (k - 1),
                    8 * (k - 1) + 8,
                ));
                assert(bits_bytes(bytes_bits(rest))[k - 1] == rest[k - 1]);
            }
        }
        assert(bits_bytes(all) =~= bytes);
    } else {
        assert(bits_bytes(bytes_bits(bytes)) =~= bytes);
    }
}

/// Bits pushed into the packer in a number of whole bytes come out again
/// unchanged: the bytes packed from them spell exactly those bits.
pub proof fn law_packed_bits_read_back(b: Seq<bool>)
    requires
        b.len() % 8 == 0,
    ensures
        bits_bytes(b).len() == b.len() / 8,
        bytes_bits(bits_bytes(b)) == b,
    decreases b.len(),
{
    if b.len() > 0 {
        let rest = b.skip(8);
        law_packed_bits_read_back(rest);
        let head = b.subrange(0, 8);
        lemma_bits_value_bound(head);
        lemma2_to64();
        lemma_value_bits_of_bits_value(head);
        assert(bits_bytes(b)[0] as nat == bits_value(head));
        assert(bits_bytes(b).skip(1) =~= bits_bytes(rest)) by {
            assert forall|k: int| 0 <= k < rest.len() / 8 implies bits_bytes(b).skip(1)[k]
                == #[trigger] bits_bytes(rest)[k] by {
                assert(b.subrange(8 * (k + 1), 8 * (k + 1) + 8) =~= rest.subrange(8 * k, 8 * k + 8));
            }
        }
        assert(b =~= head + rest);
    } else {
        assert(bits_bytes(b) =~= Seq::<u8>::empty());
        assert(bytes_bits(Seq::<u8>::empty()) =~= b);
    }
}

/// A push of `width` bits appends bits that spell `value` again, so what
/// comes out of the packer keeps every pushed value in its order.
pub proof fn law_pushed_bits_spell_value(width: nat, value: nat)
    requires
        1 <= width <= 64,
        value < pow2(width),
    ensures
        value_bits(width, value).len() == width,
        bits_value(value_bits(width, value)) == value,
{
    lemma_bits_value_of_value_bits(width, value);
    vstd::arithmetic::div_mod::lemma_small_mod(value, pow2(width));
}

/// Bit `i` of `v`, counted from the least significant, read with a mask.
pub proof fn lemma_mask_bit(v: u64, i: u32)
    requires
        i < 64,
    ensures
        ((v & (1u64 << i)) != 0) == ((v as nat / pow2(i as nat)) % 2 == 1),
{
    assert(((v & (1u64 << i)) != 0) == (((v >> i) & 1) == 1)) by (bit_vector)
        requires i < 64;
    assert((((v >> i) & 1) == 1) == ((v >> i) % 2 == 1)) by (bit_vector);
    lemma_u64_shr_is_div(v, i as u64);
}

/// A queue of bits that hands them out again as bytes, eight at a time and
/// most significant bit first.
pub struct BitOrg {
    pending: VecDeque<bool>,
    unread: VecDeque<u8>,
}

impl BitOrg {
    /// Fewer than eight bits wait outside the byte queue.
    pub closed spec fn wf(&self) -> bool {
        self.pending@.len() < 8
    }

    /// Every bit that was pushed and has not yet left in a byte, in order.
    pub closed spec fn stream(&self) -> Seq<bool> {
        bytes_bits(self.unread@) + self.pending@
    }

    pub fn new() -> (r: Self)
        ensures
            r.wf(),
            r.stream() == Seq::<bool>::empty(),
    {
        let r = Self { pending: VecDeque::new(), unread: VecDeque::new() };
        assert(r.stream() =~= Seq::<bool>::empty());
        r
    }

    fn reorg(&mut self)
        requires
            old(self).pending@.len() < 16,
        ensures
            final(self).stream() == old(self).stream(),
            final(self).pending@.len() < 8,
    {
        while self.pending.len() >= 8
            invariant
                self.pending@.len() < 16,
                self.stream() == old(self).stream(),
            decreases self.pending@.len(),
        {
            let ghost start = self.pending@;
            let ghost unread0 = self.unread@;
            let mut next: u8 = 0;
            let mut k: usize = 0;
            while k < 8
                invariant
                    k <= 8,
                    start.len() >= 8,
                    self.pending@ == start.skip(k as int),
                    self.unread@ == unread0,
                    next as nat == bits_value(start.take(k as int)),
                decreases 8 - k,
            {
                let b = self.pending.pop_front().unwrap();
                proof {
                    lemma_bits_value_bound(start.take(k as int));
                    assert(start.take(k + 1).drop_last() =~= start.take(k as int));
                    assert(pow2(k as nat) <= 128) by {
                        lemma2_to64();
                        if k < 7 {
                            vstd::arithmetic::power2::lemma_pow2_strictly_increases(k as nat, 7);
                        }
                    }
                    assert(self.pending@ =~= start.skip(k + 1));
                }
                next = next * 2 + if b { 1u8 } else { 0u8 };
                k += 1;
            }
            proof {
                assert(start.take(8) == start.subrange(0, 8));
                lemma_value_bits_of_bits_value(start.take(8));
                lemma_bytes_bits_push(self.unread@, next);
                assert(start =~= start.take(8) + start.skip(8));
            }
            self.unread.push_back(next);
            proof {
                assert(self.unread@ == unread0.push(next));
                assert(byte_bits(next) == start.take(8));
                assert(self.stream() =~= bytes_bits(unread0) + start.take(8) + start.skip(8));
            }
        }
    }

    /// Appends the `bit_count` low bits of `bits`, most significant first.
    pub fn push_bits(&mut self, bit_count: u32, bits: u64)
        requires
            old(self).wf(),
            1 <= bit_count <= 64,
        ensures
            final(self).wf(),
            final(self).stream() == old(self).stream() + value_bits(
                bit_count as nat,
                bits as nat,
            ),
    {
        let ghost old_stream = self.stream();
        let ghost want = value_bits(bit_count as nat, bits as nat);
        let mut i: u32 = bit_count;
        while i > 0
            invariant
                i <= bit_count <= 64,
                self.pending@.len() < 8,
                want == value_bits(bit_count as nat, bits as nat),
                old_stream == old(self).stream(),
                self.stream() == old_stream + want.take((bit_count - i) as int),
            decreases i,
        {
            i -= 1;
            let b = bits & (1u64 << i) != 0;
            proof {
                lemma_mask_bit(bits, i);
                assert((bit_count - 1 - (bit_count - 1 - i)) as nat == i as nat);
                assert(want[(bit_count - 1 - i) as int] == b);
            }
            let ghost p0 = self.pending@;
            self.pending.push_back(b);
            proof {
                assert(self.pending@ == p0.push(b));
                assert(self.stream() =~= (bytes_bits(self.unread@) + p0).push(b));
                assert(want.take((bit_count - i) as int) =~= want.take(
                    (bit_count - i - 1) as int,
                ).push(b));
                assert(self.stream() =~= old_stream + want.take((bit_count - i) as int));
            }
            self.reorg();
        }
        proof {
            assert(want.take(bit_count as int) =~= want);
        }
    }

    /// Takes the next whole byte off the front of the queue, if eight bits
    /// are waiting.
    pub fn pop_one(&mut self) -> (r: Option<u8>)
        requires
            old(self).wf(),
        ensures
            final(self).wf(),
            old(self).stream().len() >= 8 ==> r == Some(
                bits_value(old(self).stream().take(8)) as u8,
            ) && final(self).stream() == old(self).stream().skip(8),
            old(self).stream().len() < 8 ==> r is None && final(self).stream() == old(
                self,
            ).stream(),
    {
        proof {
            lemma_bytes_bits_len(self.unread@);
        }
        let ghost u = self.unread@;
        let r = self.unread.pop_front();
        proof {
            if u.len() > 0 {
                let s = bytes_bits(u) + self.pending@;
                assert(s.take(8) =~= byte_bits(u[0]));
                lemma_byte_bits_value(u[0]);
                assert(self.unread@ =~= u.skip(1));
                assert(s.skip(8) =~= bytes_bits(u.skip(1)) + self.pending@);
            }
        }
        r
    }

    /// Moves as many whole bytes as are waiting, and as fit, into `buf`, and
    /// says how many it moved.
    pub fn read(&mut self, buf: &mut [u8]) -> (n: usize)
        requires
            old(self).wf(),
        ensures
            final(self).wf(),
            n == vstd::math::min(old(buf)@.len() as int, old(self).stream().len() as int / 8),
            final(buf)@.len() == old(buf)@.len(),
            final(buf)@.take(n as int) == bits_bytes(old(self).stream()).take(n as int),
            final(buf)@.skip(n as int) == old(buf)@.skip(n as int),
            final(self).stream() == old(self).stream().skip(8 * n),
    {
        let ghost s0 = self.stream();
        let mut index: usize = 0;
        while index < buf.len()
            invariant
                self.wf(),
                index <= buf@.len() == old(buf)@.len(),
                s0 == old(self).stream(),
                8 * index <= s0.len(),
                self.stream() == s0.skip(8 * index),
                buf@.take(index as int) == bits_bytes(s0).take(index as int),
                buf@.skip(index as int) == old(buf)@.skip(index as int),
            decreases buf@.len() - index,
        {
            let ghost before = buf@;
            match self.pop_one() {
                Some(v) => {
                    buf[index] = v;
                    proof {
                        let s = s0.skip(8 * index);
                        assert(s.take(8) =~= s0.subrange(8 * index, 8 * index + 8));
                        assert(s.skip(8) =~= s0.skip(8 * (index + 1)));
                        assert(buf@.take(index + 1) =~= bits_bytes(s0).take(index + 1));
                        assert(buf@.skip(index + 1) =~= before.skip(index + 1));
                        assert(before.skip(index + 1) =~= before.skip(index as int).skip(1));
                        assert(old(buf)@.skip(index + 1) =~= old(buf)@.skip(index as int).skip(1));
                    }
                },
                None => {
                    assert(s0.len() as int / 8 == index as int);
                    return index;
                },
            }
            index += 1;
        }
        index
    }
}

} // verus!
