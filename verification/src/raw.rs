use vstd::prelude::*;

verus! {

/// `n` zero bytes.
pub open spec fn zeros(n: nat) -> Seq<u8> {
    Seq::new(n, |i: int| 0u8)
}

/// The lowest eight bits of `n`.
pub open spec fn low8(n: int) -> u8 {
    (n % 0x100) as u8
}

/// The lowest sixteen bits of `n`.
pub open spec fn low16(n: int) -> u16 {
    (n % 0x1_0000) as u16
}

/// The lowest thirty-two bits of `n`.
pub open spec fn low32(n: int) -> u32 {
    (n % 0x1_0000_0000) as u32
}

/// The lowest sixteen bits of the number after `n` are those of `n` counted up by
/// one, from 65535 back to zero.
pub proof fn low16_next(n: int)
    ensures
        low16(n + 1) == (if low16(n) == 0xFFFF {
            0
        } else {
            low16(n) + 1
        }),
{
    let q = n / 0x1_0000;
    let r = n % 0x1_0000;
    assert(n == 0x1_0000 * q + r);
    if r == 0xFFFF {
        assert(n + 1 == 0x1_0000 * (q + 1));
        assert((n + 1) % 0x1_0000 == 0);
    } else {
        assert(n + 1 == 0x1_0000 * q + (r + 1));
        assert((n + 1) % 0x1_0000 == r + 1);
    }
}

/// What follows a part stands behind it, and the part stands at the head.
pub proof fn parts_of_sum(a: Seq<u8>, b: Seq<u8>)
    ensures
        (a + b).len() == a.len() + b.len(),
        (a + b).subrange(0, a.len() as int) == a,
        (a + b).subrange(a.len() as int, (a.len() + b.len()) as int) == b,
{
    assert((a + b).subrange(0, a.len() as int) =~= a);
    assert((a + b).subrange(a.len() as int, (a.len() + b.len()) as int) =~= b);
}

/// A part of what stands at the head of a sum is a part of the sum.
pub proof fn part_of_head(a: Seq<u8>, b: Seq<u8>, from: int, to: int)
    requires
        0 <= from <= to <= a.len(),
    ensures
        (a + b).subrange(from, to) == a.subrange(from, to),
{
    assert((a + b).subrange(from, to) =~= a.subrange(from, to));
}

/// A number below 2^32 is its own lowest thirty-two bits.
pub proof fn low32_small(n: int)
    requires
        0 <= n < 0x1_0000_0000,
    ensures
        low32(n) == n,
{
}

/// A part of a part of `bytes` is a part of `bytes`.
pub proof fn part_of_part(bytes: Seq<u8>, at: int, n: int, a: int, b: int)
    requires
        0 <= at,
        at + n <= bytes.len(),
        0 <= a <= b <= n,
    ensures
        bytes.subrange(at, at + n).subrange(a, b) == bytes.subrange(at + a, at + b),
{
    assert(bytes.subrange(at, at + n).subrange(a, b) =~= bytes.subrange(at + a, at + b));
}

/// `n`, or `n + 1` where `n` is odd.
pub open spec fn round_up_even(n: int) -> int {
    n + n % 2
}

/// The number of zero bytes that fill `n` bytes up to whole sectors.
pub open spec fn sector_gap(n: int) -> int {
    (2048 - n % 2048) % 2048
}

/// `data` filled up with zero bytes to whole sectors.
pub open spec fn sector_padded(data: Seq<u8>) -> Seq<u8> {
    data + zeros(sector_gap(data.len() as int) as nat)
}

/// A padded extent holds a whole number of sectors: as many as its data need.
pub proof fn sector_padded_len(data: Seq<u8>)
    ensures
        sector_padded(data).len() == 2048 * ((data.len() + 2047) / 2048),
        sector_padded(data).len() % 2048 == 0,
        data.len() % 2048 == 0 ==> sector_padded(data) == data,
{
    let n = data.len() as int;
    assert(sector_padded(data).len() == n + sector_gap(n));
    if n % 2048 == 0 {
        assert(sector_padded(data) =~= data);
    }
}

/// The lowest eight bits of `n`.
pub fn low8_of(n: usize) -> (b: u8)
    ensures
        b == low8(n as int),
{
    (n % 0x100) as u8
}

/// The lowest thirty-two bits of `n`.
pub fn low32_of(n: u64) -> (b: u32)
    ensures
        b == low32(n as int),
{
    (n % 0x1_0000_0000) as u32
}

/// Appends `n` zero bytes to `out`.
pub fn push_zeros(out: &mut Vec<u8>, n: usize)
    ensures
        final(out)@ == old(out)@ + zeros(n as nat),
{
    let mut i: usize = 0;
    while i < n
        invariant
            i <= n,
            out@ == old(out)@ + zeros(i as nat),
        decreases n - i,
    {
        out.push(0);
        i += 1;
        assert(out@ =~= old(out)@ + zeros(i as nat));
    }
}

/// Appends to `out` the zero bytes that fill `n` bytes up to whole sectors.
pub fn push_sector_gap(out: &mut Vec<u8>, n: usize)
    ensures
        final(out)@ == old(out)@ + zeros(sector_gap(n as int) as nat),
{
    let gap = (2048 - n % 2048) % 2048;
    push_zeros(out, gap);
}

/// The `N` bytes of `bytes` from `at` on.
pub fn load_array<const N: usize>(bytes: &[u8], at: usize) -> (a: [u8; N])
    requires
        at + N <= bytes@.len(),
    ensures
        a@ == bytes@.subrange(at as int, at + N),
{
    let total = bytes.len();
    let mut a: [u8; N] = [0u8; N];
    let mut i: usize = 0;
    while i < N
        invariant
            i <= N,
            at + N <= bytes@.len(),
            bytes@.len() == total,
            forall|j: int| 0 <= j < i ==> a@[j] == bytes@[at + j],
        decreases N - i,
    {
        a[i] = bytes[at + i];
        i += 1;
    }
    assert(a@ =~= bytes@.subrange(at as int, at + N));
    a
}

/// The bytes of `bytes` from `from` up to `to`.
pub fn copy_range(bytes: &[u8], from: usize, to: usize) -> (v: Vec<u8>)
    requires
        from <= to <= bytes@.len(),
    ensures
        v@ == bytes@.subrange(from as int, to as int),
{
    let mut v: Vec<u8> = Vec::new();
    let part = vstd::slice::slice_subrange(bytes, from, to);
    v.extend_from_slice(part);
    v
}

/// Whether two byte strings are the same.
pub fn same_bytes(a: &[u8], b: &[u8]) -> (same: bool)
    ensures
        same == (a@ == b@),
{
    if a.len() != b.len() {
        return false;
    }
    let mut i: usize = 0;
    while i < a.len()
        invariant
            i <= a@.len(),
            a@.len() == b@.len(),
            forall|j: int| 0 <= j < i ==> a@[j] == b@[j],
        decreases a@.len() - i,
    {
        if a[i] != b[i] {
            return false;
        }
        i += 1;
    }
    assert(a@ =~= b@);
    true
}

} // verus!
