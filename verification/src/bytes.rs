//! Byte sequences: big-endian numbers, comparing and copying.

use vstd::prelude::*;

verus! {

/// Two bytes as a big-endian number.
pub open spec fn be16(hi: u8, lo: u8) -> u16 {
    (hi * 0x100 + lo) as u16
}

/// Four bytes as a big-endian number.
pub open spec fn be32(a: u8, b: u8, c: u8, d: u8) -> u32 {
    (a * 0x100_0000 + b * 0x1_0000 + c * 0x100 + d) as u32
}

/// A sequence of bytes as a big-endian number.
pub open spec fn be_value(s: Seq<u8>) -> nat
    decreases s.len(),
{
    if s.len() == 0 {
        0
    } else {
        be_value(s.drop_last()) * 0x100 + s.last() as nat
    }
}

/// The two bytes of a number, big-endian.
pub open spec fn be16_bytes(n: u16) -> Seq<u8> {
    seq![(n / 0x100) as u8, (n % 0x100) as u8]
}

/// The four bytes of a number, big-endian.
pub open spec fn be32_bytes(n: u32) -> Seq<u8> {
    seq![
        (n / 0x100_0000) as u8,
        (n / 0x1_0000 % 0x100) as u8,
        (n / 0x100 % 0x100) as u8,
        (n % 0x100) as u8,
    ]
}

/// Every byte is zero.
pub open spec fn all_zero(s: Seq<u8>) -> bool {
    forall|i: int| 0 <= i < s.len() ==> s[i] == 0
}

pub fn join16(hi: u8, lo: u8) -> (n: u16)
    ensures
        n == be16(hi, lo),
{
    hi as u16 * 0x100 + lo as u16
}

pub fn join32(a: u8, b: u8, c: u8, d: u8) -> (n: u32)
    ensures
        n == be32(a, b, c, d),
{
    a as u32 * 0x100_0000 + b as u32 * 0x1_0000 + c as u32 * 0x100 + d as u32
}

pub fn bytes_equal(a: &[u8], b: &[u8]) -> (r: bool)
    ensures
        r == (a@ == b@),
{
    if a.len() != b.len() {
        return false;
    }
    let mut i: usize = 0;
    while i < a.len()
        invariant
            i <= a@.len(),
            a@.len() == b@.len(),
            forall|j: int| 0 <= j < i ==> a@[j] == b@[j],
        decreases a@.len() - i,
    {
        if a[i] != b[i] {
            return false;
        }
        i += 1;
    }
    assert(a@ =~= b@);
    true
}

pub fn is_all_zero(s: &[u8]) -> (r: bool)
    ensures
        r == all_zero(s@),
{
    let mut i: usize = 0;
    while i < s.len()
        invariant
            i <= s@.len(),
            forall|j: int| 0 <= j < i ==> s@[j] == 0,
        decreases s@.len() - i,
    {
        if s[i] != 0 {
            return false;
        }
        i += 1;
    }
    true
}

/// The `N` bytes from index `start` on.
pub fn array_at<const N: usize>(s: &[u8], start: usize) -> (r: [u8; N])
    requires
        start + N <= s@.len(),
    ensures
        r@ == s@.subrange(start as int, start + N),
{
    let n: usize = s.len();
    let mut r: [u8; N] = [0u8; N];
    let mut i: usize = 0;
    while i < N
        invariant
            i <= N,
            n == s@.len(),
            start + N <= n,
            forall|j: int| 0 <= j < i ==> r@[j] == s@[start + j],
        decreases N - i,
    {
        r[i] = s[start + i];
        i += 1;
    }
    assert(r@ =~= s@.subrange(start as int, start + N));
    r
}

/// The first number that `n` bytes cannot hold.
pub open spec fn be_limit(n: nat) -> nat
    decreases n,
{
    if n == 0 {
        1
    } else {
        be_limit((n - 1) as nat) * 0x100
    }
}

/// A sequence of bytes stands for a number below its limit.
pub proof fn lemma_be_value_bound(s: Seq<u8>)
    ensures
        be_value(s) < be_limit(s.len()),
    decreases s.len(),
{
    if s.len() > 0 {
        lemma_be_value_bound(s.drop_last());
    }
}

/// More bytes hold no fewer numbers.
pub proof fn lemma_be_limit(n: nat, m: nat)
    ensures
        n <= m ==> be_limit(n) <= be_limit(m),
    decreases m,
{
    if n < m {
        lemma_be_limit(n, (m - 1) as nat);
    }
}

/// Sixteen bytes hold exactly the numbers of 128 bits.
pub proof fn lemma_be_limit_u128()
    ensures
        be_limit(16) == u128::MAX + 1,
        be_limit(15) * 0x100 == be_limit(16),
{
    reveal_with_fuel(be_limit, 17);
}

/// Splitting a number into two bytes and joining them gives the number back.
pub proof fn lemma_be16_bytes(n: u16)
    ensures
        be16(be16_bytes(n)[0], be16_bytes(n)[1]) == n,
{
}

/// Splitting a number into four bytes and joining them gives the number back.
pub proof fn lemma_be32_bytes(n: u32)
    ensures
        be32(be32_bytes(n)[0], be32_bytes(n)[1], be32_bytes(n)[2], be32_bytes(n)[3]) == n,
{
}

} // verus!
