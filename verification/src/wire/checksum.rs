//! The 16-bit one's-complement checksum of RFC 1071.

use vstd::prelude::*;
use vstd::arithmetic::div_mod::*;

verus! {

/// Weight of the byte at index `i` in its 16-bit big-endian word.
pub open spec fn byte_weight(i: int) -> nat {
    if i % 2 == 0 {
        256
    } else {
        1
    }
}

/// Sum of the 16-bit big-endian words of `data`. A trailing odd byte is the
/// high byte of a last word whose low byte is zero.
pub open spec fn word_sum(data: Seq<u8>) -> nat
    decreases data.len(),
{
    if data.len() == 0 {
        0
    } else {
        word_sum(data.drop_last()) + data.last() as nat * byte_weight(data.len() - 1)
    }
}

/// Folds the carries above bit 16 back into the low 16 bits until none is left.
pub open spec fn fold_carries(sum: nat) -> nat
    decreases sum,
{
    if sum < 0x10000 {
        sum
    } else {
        fold_carries(sum % 0x10000 + sum / 0x10000)
    }
}

/// The checksum of `data`: the one's complement of its folded word sum.
pub open spec fn checksum_of(data: Seq<u8>) -> u16 {
    (0xffff - fold_carries(word_sum(data))) as u16
}

/// `data` with the 16-bit value `value` written big-endian at `offset`.
pub open spec fn with_word_at(data: Seq<u8>, offset: int, value: u16) -> Seq<u8> {
    data.update(offset, (value / 256) as u8).update(offset + 1, (value % 256) as u8)
}

/// A word sum never exceeds 0xff00 per byte.
pub proof fn lemma_word_sum_bound(data: Seq<u8>)
    ensures
        word_sum(data) <= 65280 * data.len(),
    decreases data.len(),
{
    if data.len() > 0 {
        lemma_word_sum_bound(data.drop_last());
    }
}

/// Replacing one byte moves the word sum by the weighted difference.
pub proof fn lemma_word_sum_update(data: Seq<u8>, i: int, v: u8)
    requires
        0 <= i < data.len(),
    ensures
        word_sum(data.update(i, v)) + data[i] as nat * byte_weight(i) == word_sum(data) + v as nat
            * byte_weight(i),
    decreases data.len(),
{
    let upd = data.update(i, v);
    if i == data.len() - 1 {
        assert(upd.drop_last() =~= data.drop_last());
    } else {
        lemma_word_sum_update(data.drop_last(), i, v);
        assert(upd.drop_last() =~= data.drop_last().update(i, v));
    }
}

/// Folding gives zero for zero, and otherwise the representative of the sum
/// modulo 0xffff in the range 1..=0xffff.
pub proof fn lemma_fold_closed_form(sum: nat)
    ensures
        fold_carries(sum) == if sum == 0 {
            0nat
        } else {
            ((sum - 1) % 65535 + 1) as nat
        },
    decreases sum,
{
    if sum >= 0x10000 {
        let q = sum / 0x10000;
        let next = sum % 0x10000 + q;
        assert(sum == 0x10000 * q + sum % 0x10000) by {
            lemma_fundamental_div_mod(sum as int, 0x10000);
        }
        assert(q >= 1);
        assert(next == sum - 65535 * q);
        lemma_fold_closed_form(next);
        assert((sum - 1) % 65535 == (next - 1) % 65535) by {
            lemma_mod_multiples_vanish(q as int, next - 1, 65535);
        }
    } else if sum > 0 {
        if sum == 0xffff {
            assert(65534int % 65535 == 65534);
        } else {
            lemma_small_mod((sum - 1) as nat, 65535);
        }
    }
}

/// A folded sum fits in 16 bits.
pub proof fn lemma_fold_range(sum: nat)
    ensures
        fold_carries(sum) <= 0xffff,
{
    lemma_fold_closed_form(sum);
    if sum > 0 {
        lemma_mod_bound((sum - 1) as int, 65535);
    }
}

/// A buffer sums to checksum zero exactly when its word sum is a positive
/// multiple of 0xffff.
pub proof fn lemma_checksum_zero_iff(data: Seq<u8>)
    ensures
        checksum_of(data) == 0 <==> (word_sum(data) > 0 && word_sum(data) % 65535 == 0),
{
    let s = word_sum(data);
    lemma_fold_closed_form(s);
    lemma_fold_range(s);
    if s > 0 {
        lemma_mod_bound((s - 1) as int, 65535);
        lemma_fundamental_div_mod((s - 1) as int, 65535);
        lemma_fundamental_div_mod(s as int, 65535);
        let q = (s - 1) / 65535;
        let r = (s - 1) % 65535;
        if r == 65534 {
            assert(s == 65535 * (q + 1));
            lemma_mod_multiples_basic(q + 1, 65535);
        } else {
            assert(s == 65535 * q + (r + 1));
            lemma_fundamental_div_mod_converse(s as int, 65535, q as int, (r + 1) as int);
        }
    }
}

/// Checksum round trip: a buffer whose checksum field holds zero, once its
/// own checksum is written into that field, sums to zero.
pub proof fn lemma_checksum_round_trip(data: Seq<u8>, offset: int)
    requires
        0 <= offset,
        offset + 2 <= data.len(),
        offset % 2 == 0,
        data[offset] == 0,
        data[offset + 1] == 0,
    ensures
        checksum_of(with_word_at(data, offset, checksum_of(data))) == 0,
{
    let s = word_sum(data);
    let c = checksum_of(data);
    lemma_fold_closed_form(s);
    lemma_fold_range(s);
    let mid = data.update(offset, (c / 256) as u8);
    let done = with_word_at(data, offset, c);
    lemma_word_sum_update(data, offset, (c / 256) as u8);
    lemma_word_sum_update(mid, offset + 1, (c % 256) as u8);
    assert(byte_weight(offset) == 256 && byte_weight(offset + 1) == 1);
    assert(mid[offset + 1] == 0);
    assert(c == (c / 256) * 256 + c % 256);
    assert(word_sum(done) == s + c);
    lemma_checksum_zero_iff(done);
    if s == 0 {
        assert(c == 0xffff);
        assert(65535int % 65535 == 0);
    } else {
        let q = (s - 1) / 65535;
        let r = (s - 1) % 65535;
        lemma_fundamental_div_mod((s - 1) as int, 65535);
        lemma_mod_bound((s - 1) as int, 65535);
        assert(c == 65534 - r);
        assert(s + c == 65535 * (q + 1));
        lemma_mod_multiples_basic(q + 1, 65535);
    }
}

/// Computes the RFC 1071 checksum of `data`: the 16-bit big-endian words are
/// summed, a trailing odd byte is padded with a zero low byte, the carries are
/// folded back in, and the one's complement of the result is returned.
pub fn ones_complement(data: &[u8]) -> (r: u16)
    ensures
        r == checksum_of(data@),
{
    let n: usize = data.len();
    let mut sum: u128 = 0;
    let mut i: usize = 0;
    while n - i >= 2
        invariant
            i <= n,
            i % 2 == 0,
            n == data@.len(),
            sum == word_sum(data@.take(i as int)),
        decreases n - i,
    {
        let hi: u8 = data[i];
        let lo: u8 = data[i + 1];
        proof {
            let next = data@.take(i + 2);
            let mid = data@.take(i + 1);
            assert(next.drop_last() =~= mid);
            assert(mid.drop_last() =~= data@.take(i as int));
            assert(byte_weight(i as int) == 256 && byte_weight(i + 1) == 1);
            assert(word_sum(mid) == word_sum(data@.take(i as int)) + hi as nat * 256);
            assert(word_sum(next) == word_sum(mid) + lo as nat);
            lemma_word_sum_bound(data@.take(i as int));
        }
        sum = sum + (hi as u128) * 256 + (lo as u128);
        i = i + 2;
    }
    if i < n {
        let hi: u8 = data[i];
        proof {
            assert(data@.take(i + 1).drop_last() =~= data@.take(i as int));
            assert(byte_weight(i as int) == 256);
            assert(word_sum(data@.take(i + 1)) == word_sum(data@.take(i as int)) + hi as nat * 256);
            lemma_word_sum_bound(data@.take(i as int));
        }
        sum = sum + (hi as u128) * 256;
        i = i + 1;
    }
    assert(data@.take(i as int) =~= data@);
    while sum >= 0x10000
        invariant
            fold_carries(sum as nat) == fold_carries(word_sum(data@)),
        decreases sum,
    {
        sum = sum % 0x10000 + sum / 0x10000;
    }
    0xffff - (sum as u16)
}

} // verus!
