//! Big-endian integers inside byte buffers.
use vstd::arithmetic::div_mod::lemma_div_denominator;
use vstd::arithmetic::power::lemma_pow0;
use vstd::arithmetic::power::lemma_pow_positive;
use vstd::arithmetic::power::pow;
use vstd::prelude::*;

verus! {

/// The number that `s` spells, most significant byte first.
pub open spec fn be(s: Seq<u8>) -> nat
    decreases s.len(),
{
    if s.len() == 0 {
        0
    } else {
        be(s.drop_last()) * 256 + s.last() as nat
    }
}

/// The `len` bytes that spell `n`, most significant byte first; higher digits are cut off.
pub open spec fn be_bytes(n: nat, len: nat) -> Seq<u8>
    decreases len,
{
    if len == 0 {
        Seq::empty()
    } else {
        be_bytes(n / 256, (len - 1) as nat).push((n % 256) as u8)
    }
}

/// How many numbers `len` bytes can spell.
pub open spec fn be_limit(len: nat) -> nat
    decreases len,
{
    if len == 0 {
        1
    } else {
        256 * be_limit((len - 1) as nat)
    }
}

/// `s` with the bytes from `at` on replaced by `w`.
pub open spec fn patch(s: Seq<u8>, at: int, w: Seq<u8>) -> Seq<u8> {
    s.take(at) + w + s.skip(at + w.len())
}

pub proof fn lemma_be_limits()
    ensures
        be_limit(1) == 0x100,
        be_limit(2) == 0x1_0000,
        be_limit(4) == 0x1_0000_0000,
        be_limit(16) == 0x1_0000_0000_0000_0000_0000_0000_0000_0000,
{
    reveal_with_fuel(be_limit, 17);
}

pub proof fn lemma_be_limit_monotone(a: nat, b: nat)
    requires
        a <= b,
    ensures
        1 <= be_limit(a) <= be_limit(b),
    decreases b,
{
    if a < b {
        lemma_be_limit_monotone(a, (b - 1) as nat);
    } else if a > 0 {
        lemma_be_limit_monotone((a - 1) as nat, (a - 1) as nat);
    }
}

pub proof fn lemma_be_bound(s: Seq<u8>)
    ensures
        be(s) < be_limit(s.len()),
    decreases s.len(),
{
    if s.len() > 0 {
        lemma_be_bound(s.drop_last());
    }
}

pub broadcast proof fn lemma_be_bytes_len(n: nat, len: nat)
    ensures
        (#[trigger] be_bytes(n, len)).len() == len,
    decreases len,
{
    if len > 0 {
        lemma_be_bytes_len(n / 256, (len - 1) as nat);
    }
}

/// Reading what was spelled gives the number back.
pub proof fn lemma_be_round_trip(n: nat, len: nat)
    requires
        n < be_limit(len),
    ensures
        be_bytes(n, len).len() == len,
        be(be_bytes(n, len)) == n,
    decreases len,
{
    if len > 0 {
        lemma_be_round_trip(n / 256, (len - 1) as nat);
        let s = be_bytes(n, len);
        assert(s.drop_last() =~= be_bytes(n / 256, (len - 1) as nat));
    }
}

proof fn lemma_next_power(k: nat)
    ensures
        pow(256, k + 1) == 256 * pow(256, k),
        pow(256, k) > 0,
{
    reveal(pow);
    lemma_pow_positive(256, k);
}

/// The bytes that spell a number are its digits to the base 256: the byte number `i` of `len` is the
/// digit that counts `256` to the power of the number of bytes behind it.
pub proof fn law_spelled_digits(n: nat, len: nat, i: int)
    requires
        0 <= i < len,
    ensures
        be_bytes(n, len).len() == len,
        be_bytes(n, len)[i] == n as int / pow(256, (len - 1 - i) as nat) % 256,
    decreases len,
{
    lemma_be_bytes_len(n, len);
    lemma_be_bytes_len(n / 256, (len - 1) as nat);
    if i == len - 1 {
        lemma_pow0(256);
    } else {
        let k = (len - 2 - i) as nat;
        law_spelled_digits(n / 256, (len - 1) as nat, i);
        lemma_next_power(k);
        lemma_div_denominator(n as int, 256, pow(256, k));
    }
}

/// The number that bytes spell has these bytes as its digits to the base 256, and no others.
pub proof fn law_read_digits(s: Seq<u8>, k: nat)
    requires
        k < s.len(),
    ensures
        be(s) as int / pow(256, k) % 256 == s[s.len() - 1 - k],
        be(s) < pow(256, s.len()),
    decreases s.len(),
{
    let rest = s.drop_last();
    lemma_next_power((s.len() - 1) as nat);
    if s.len() == 1 {
        assert(be(rest) == 0);
        lemma_pow0(256);
    } else {
        law_read_digits(rest, 0);
    }
    assert(be(s) / 256 == be(rest));
    if k == 0 {
        lemma_pow0(256);
    } else {
        let j = (k - 1) as nat;
        law_read_digits(rest, j);
        lemma_next_power(j);
        lemma_div_denominator(be(s) as int, 256, pow(256, j));
    }
}

/// `len` bytes spell as many numbers as `256` to the power of `len`.
pub proof fn law_limit_is_a_power(len: nat)
    ensures
        be_limit(len) == pow(256, len),
    decreases len,
{
    if len == 0 {
        lemma_pow0(256);
    } else {
        law_limit_is_a_power((len - 1) as nat);
        lemma_next_power((len - 1) as nat);
    }
}

/// Patching puts every byte of `w` in its place and leaves all others alone.
pub proof fn law_patch(s: Seq<u8>, at: int, w: Seq<u8>, i: int)
    requires
        0 <= at,
        at + w.len() <= s.len(),
        0 <= i < s.len(),
    ensures
        patch(s, at, w).len() == s.len(),
        at <= i < at + w.len() ==> patch(s, at, w)[i] == w[i - at],
        !(at <= i < at + w.len()) ==> patch(s, at, w)[i] == s[i],
{
}

/// Two bytes spell their high byte times 256 and their low byte.
pub proof fn lemma_be_two(s: Seq<u8>)
    requires
        s.len() == 2,
    ensures
        be(s) == s[0] * 256 + s[1],
{
    reveal_with_fuel(be, 3);
}

/// Four bytes spell their sum, each weighed by its place.
pub proof fn lemma_be_four(s: Seq<u8>)
    requires
        s.len() == 4,
    ensures
        be(s) == s[0] * 0x100_0000 + s[1] * 0x1_0000 + s[2] * 0x100 + s[3],
{
    reveal_with_fuel(be, 5);
}

/// Reads the `len` bytes at `at`.
pub fn read_be(buf: &[u8], at: usize, len: usize) -> (n: u128)
    requires
        len <= 16,
        at + len <= buf@.len(),
    ensures
        n == be(buf@.subrange(at as int, at + len)),
        n < be_limit(len as nat),
{
    let mut n: u128 = 0;
    let mut i: usize = 0;
    assert(buf@.subrange(at as int, at as int) =~= Seq::empty());
    while i < len
        invariant
            i <= len <= 16,
            at + len <= buf@.len(),
            n == be(buf@.subrange(at as int, at + i)),
        decreases len - i,
    {
        proof {
            assert(buf.len() == buf@.len());
            let s = buf@.subrange(at as int, at + i);
            let t = buf@.subrange(at as int, at + i + 1);
            assert(t.drop_last() =~= s);
            lemma_be_bound(t);
            lemma_be_limit_monotone((i + 1) as nat, 16);
            lemma_be_limits();
        }
        n = n * 256 + buf[at + i] as u128;
        i = i + 1;
    }
    proof {
        lemma_be_bound(buf@.subrange(at as int, at + len));
    }
    n
}

/// Writes `n` into the `len` bytes at `at`.
pub fn write_be(buf: &mut [u8], at: usize, n: u128, len: usize)
    requires
        at + len <= old(buf)@.len(),
    ensures
        final(buf)@ == patch(old(buf)@, at as int, be_bytes(n as nat, len as nat)),
    decreases len,
{
    proof {
        lemma_be_bytes_len(n as nat, len as nat);
    }
    if len > 0 {
        proof {
            lemma_be_bytes_len(n as nat / 256, (len - 1) as nat);
        }
        write_be(buf, at, n / 256, len - 1);
        assert(buf.len() == buf@.len());
        buf[at + len - 1] = (n % 256) as u8;
        assert(buf@ =~= patch(old(buf)@, at as int, be_bytes(n as nat, len as nat)));
    } else {
        assert(buf@ =~= patch(old(buf)@, at as int, be_bytes(n as nat, len as nat)));
    }
}

/// Copies `src` to `at`.
pub fn write_slice(buf: &mut [u8], at: usize, src: &[u8])
    requires
        at + src@.len() <= old(buf)@.len(),
    ensures
        final(buf)@ == patch(old(buf)@, at as int, src@),
{
    let mut i: usize = 0;
    assert(buf@ =~= patch(old(buf)@, at as int, src@.take(0)));
    while i < src.len()
        invariant
            i <= src@.len(),
            at + src@.len() <= old(buf)@.len(),
            buf@ == patch(old(buf)@, at as int, src@.take(i as int)),
        decreases src@.len() - i,
    {
        assert(buf.len() == buf@.len());
        buf[at + i] = src[i];
        i = i + 1;
        assert(buf@ =~= patch(old(buf)@, at as int, src@.take(i as int)));
    }
    assert(src@.take(i as int) =~= src@);
}

} // verus!
