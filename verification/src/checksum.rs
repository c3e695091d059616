//! The Internet checksum: ones' complement sums of 16-bit words.
use crate::bytes::be_bytes;
use crate::bytes::lemma_be_bytes_len;
use vstd::prelude::*;

verus! {

/// The sum of the big-endian 16-bit words of `s`; an odd last byte counts as a high byte.
pub open spec fn word_sum(s: Seq<u8>) -> nat
    decreases s.len(),
{
    if s.len() == 0 {
        0
    } else if s.len() == 1 {
        s[0] as nat * 256
    } else {
        s[0] as nat * 256 + s[1] as nat + word_sum(s.skip(2))
    }
}

/// The checksum of data whose words add up to `sum`: the complement of the sum folded to one
/// word. It brings the whole to a multiple of 65535.
pub open spec fn complement(sum: nat) -> nat {
    if sum == 0 {
        0xffff
    } else {
        (0xfffe - (sum - 1) % 0xffff) as nat
    }
}

pub proof fn lemma_word_sum_append(a: Seq<u8>, b: Seq<u8>)
    requires
        a.len() % 2 == 0,
    ensures
        word_sum(a + b) == word_sum(a) + word_sum(b),
    decreases a.len(),
{
    if a.len() == 0 {
        assert(a + b =~= b);
    } else {
        lemma_word_sum_append(a.skip(2), b);
        assert((a + b).skip(2) =~= a.skip(2) + b);
    }
}

pub proof fn lemma_word_sum_bound(s: Seq<u8>)
    ensures
        word_sum(s) <= s.len() * 0xffff,
    decreases s.len(),
{
    if s.len() > 1 {
        lemma_word_sum_bound(s.skip(2));
    }
}

/// A checksum completes its data: all words together are a multiple of 65535.
pub proof fn lemma_complement(sum: nat)
    ensures
        complement(sum) <= 0xffff,
        (sum + complement(sum)) % 0xffff == 0,
{
    if sum > 0 {
        let q = (sum - 1) / 0xffff;
        assert(sum - 1 == q * 0xffff + (sum - 1) % 0xffff);
        assert(sum + complement(sum) == (q + 1) * 0xffff);
        assert(((q + 1) * 0xffff) % 0xffff == 0) by (nonlinear_arith);
    }
}

/// One word spelled in two bytes adds its own value.
pub proof fn lemma_word_sum_word(n: nat)
    requires
        n <= 0xffff,
    ensures
        word_sum(be_bytes(n, 2)) == n,
{
    reveal_with_fuel(be_bytes, 3);
    reveal_with_fuel(word_sum, 2);
    let s = be_bytes(n, 2);
    assert(s =~= seq![(n / 256 % 256) as u8, (n % 256) as u8]);
    assert(s.skip(2) =~= Seq::empty());
}

/// The words of a spelled number are its base-65536 digits.
pub proof fn lemma_word_sum_spelled(n: nat, len: nat)
    requires
        len >= 2,
        len % 2 == 0,
    ensures
        word_sum(be_bytes(n, len)) == word_sum(be_bytes(n / 0x1_0000, (len - 2) as nat)) + n
            % 0x1_0000,
{
    reveal_with_fuel(be_bytes, 3);
    let high = be_bytes(n / 0x1_0000, (len - 2) as nat);
    lemma_be_bytes_len(n / 0x1_0000, (len - 2) as nat);
    let low = be_bytes(n % 0x1_0000, 2);
    lemma_be_bytes_len(n % 0x1_0000, 2);
    lemma_word_sum_word(n % 0x1_0000);
    assert(n / 256 / 256 == n / 0x1_0000);
    assert((n % 0x1_0000) % 256 == n % 256);
    assert((n % 0x1_0000) / 256 % 256 == n / 256 % 256);
    assert(low =~= seq![(n / 256 % 256) as u8, (n % 256) as u8]);
    assert(be_bytes(n, len) =~= high + low);
    lemma_word_sum_append(high, low);
}

/// The bytes of `s` added up, the even ones, counted from 0, as high bytes and the odd ones as low
/// bytes.
pub open spec fn weighed(s: Seq<u8>) -> int
    decreases s.len(),
{
    if s.len() == 0 {
        0
    } else {
        weighed(s.drop_last()) + s.last() * if s.len() % 2 == 1 {
            256int
        } else {
            1
        }
    }
}

proof fn lemma_weighed_front(s: Seq<u8>)
    requires
        s.len() >= 2,
    ensures
        weighed(s) == s[0] * 256 + s[1] + weighed(s.skip(2)),
    decreases s.len(),
{
    if s.len() == 2 {
        reveal_with_fuel(weighed, 3);
        assert(s.skip(2) =~= Seq::empty());
    } else {
        lemma_weighed_front(s.drop_last());
        assert(s.drop_last().skip(2) =~= s.skip(2).drop_last());
    }
}

/// The words of data add up to its bytes, every other one of them counting 256 times.
pub proof fn law_words_weigh_bytes(s: Seq<u8>)
    ensures
        word_sum(s) == weighed(s),
    decreases s.len(),
{
    if s.len() == 1 {
        reveal_with_fuel(weighed, 2);
    } else if s.len() >= 2 {
        lemma_weighed_front(s);
        law_words_weigh_bytes(s.skip(2));
    }
}

/// A checksum is the one word that brings its data to a multiple of 65535; of the two that do, all
/// ones is only taken for data that is all zero.
pub proof fn law_checksum_completes(sum: nat)
    ensures
        complement(sum) <= 0xffff,
        (sum + complement(sum)) % 0xffff == 0,
        complement(sum) == 0xffff <==> sum == 0,
{
    lemma_complement(sum);
}

/// Adds up the words of `data`.
pub fn sum_words(data: &[u8]) -> (sum: u64)
    requires
        data@.len() <= 0xffff,
    ensures
        sum == word_sum(data@),
        sum == weighed(data@),
{
    let mut sum: u64 = 0;
    let mut i: usize = 0;
    assert(data@.skip(0) =~= data@);
    proof {
        lemma_word_sum_bound(data@);
        law_words_weigh_bytes(data@);
    }
    while i + 1 < data.len()
        invariant
            i <= data@.len() <= 0xffff,
            sum + word_sum(data@.skip(i as int)) == word_sum(data@),
            word_sum(data@) <= 0xffff * 0xffff,
        decreases data@.len() - i,
    {
        assert(data@.skip(i as int).skip(2) =~= data@.skip(i + 2));
        sum = sum + (data[i] as u64 * 256 + data[i + 1] as u64);
        i = i + 2;
    }
    if i < data.len() {
        sum = sum + data[i] as u64 * 256;
    }
    sum
}

/// Adds up the words of `n` spelled in `len` bytes.
pub fn sum_number(n: u128, len: usize) -> (sum: u64)
    requires
        len % 2 == 0,
        len <= 16,
    ensures
        sum == word_sum(be_bytes(n as nat, len as nat)),
        sum <= len * 0xffff,
    decreases len,
{
    if len == 0 {
        0
    } else {
        proof {
            lemma_word_sum_spelled(n as nat, len as nat);
        }
        sum_number(n / 0x1_0000, len - 2) + (n % 0x1_0000) as u64
    }
}

/// The checksum of data whose words add up to `sum`.
pub fn finish(sum: u64) -> (r: u16)
    ensures
        r == complement(sum as nat),
        (sum + r) % 0xffff == 0,
        r == 0xffff <==> sum == 0,
{
    proof {
        law_checksum_completes(sum as nat);
    }
    if sum == 0 {
        0xffff
    } else {
        (0xfffe - (sum - 1) % 0xffff) as u16
    }
}

} // verus!
