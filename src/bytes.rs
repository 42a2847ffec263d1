use vstd::prelude::*;

verus! {

/// The `n` least significant base-256 digits of `x`, least significant first.
pub open spec fn le_digits(x: nat, n: nat) -> Seq<u8>
    decreases n,
{
    if n == 0 {
        seq![]
    } else {
        seq![(x % 256) as u8] + le_digits(x / 256, (n - 1) as nat)
    }
}

/// `le_digits` gives `n` digits.
pub proof fn lemma_le_digits_len(x: nat, n: nat)
    ensures
        le_digits(x, n).len() == n,
    decreases n,
{
    if n > 0 {
        lemma_le_digits_len(x / 256, (n - 1) as nat);
    }
}

/// The unsigned little-endian value of the four bytes of `d` from `p` on.
pub open spec fn u32_le_at(d: Seq<u8>, p: int) -> int {
    d[p] + 0x100 * d[p + 1] + 0x1_0000 * d[p + 2] + 0x100_0000 * d[p + 3]
}

/// The two's complement bit pattern of `v`, as an unsigned number.
pub open spec fn twos_complement_64(v: i64) -> nat {
    if v >= 0 {
        v as nat
    } else {
        (v + 0x1_0000_0000_0000_0000) as nat
    }
}

/// The two's complement bit pattern of `v`, as an unsigned number.
pub open spec fn twos_complement_16(v: i16) -> nat {
    if v >= 0 {
        v as nat
    } else {
        (v + 0x1_0000) as nat
    }
}

/// The signed 16-bit value whose little-endian bytes are `[lo, hi]`.
pub open spec fn i16_from_le(lo: u8, hi: u8) -> i16 {
    let u = hi * 256 + lo;
    if u < 0x8000 {
        u as i16
    } else {
        (u - 0x1_0000) as i16
    }
}

/// Reads the four bytes of `d` from `p` on as an unsigned little-endian number.
pub fn read_u32_le(d: &[u8], p: usize) -> (r: u32)
    requires
        p + 4 <= d@.len(),
    ensures
        r == u32_le_at(d@, p as int),
{
    (d[p] as u32) + 0x100 * (d[p + 1] as u32) + 0x1_0000 * (d[p + 2] as u32) + 0x100_0000 * (
    d[p + 3] as u32)
}

/// Reads the two bytes of `d` from `p` on as a signed 16-bit number whose first byte
/// is the high-order one.
pub fn read_i16_swapped(d: &[u8], p: usize) -> (r: i16)
    requires
        p + 2 <= d@.len(),
    ensures
        r == i16_from_le(d@[p + 1], d@[p as int]),
{
    let u: i32 = (d[p] as i32) * 256 + (d[p + 1] as i32);
    if u < 0x8000 {
        u as i16
    } else {
        (u - 0x1_0000) as i16
    }
}

/// Appends the `n` least significant little-endian bytes of `x` to `out`.
fn push_le(out: &mut Vec<u8>, x: u64, n: usize)
    requires
        n <= 8,
    ensures
        final(out)@ == old(out)@ + le_digits(x as nat, n as nat),
{
    let ghost start = old(out)@;
    let mut rest: u64 = x;
    let mut k: usize = 0;
    while k < n
        invariant
            k <= n,
            out@ + le_digits(rest as nat, (n - k) as nat) == start + le_digits(x as nat, n as nat),
        decreases n - k,
    {
        let ghost before = out@;
        out.push((rest % 256) as u8);
        assert(le_digits(rest as nat, (n - k) as nat) == seq![(rest % 256) as u8] + le_digits(
            (rest / 256) as nat,
            (n - k - 1) as nat,
        ));
        assert(out@ + le_digits((rest / 256) as nat, (n - k - 1) as nat) =~= before + le_digits(
            rest as nat,
            (n - k) as nat,
        ));
        rest = rest / 256;
        k = k + 1;
    }
    assert(le_digits(rest as nat, 0) =~= seq![]);
    assert(out@ =~= out@ + le_digits(rest as nat, 0));
}

/// Appends the four little-endian bytes of `v` to `out`.
pub fn push_u32_le(out: &mut Vec<u8>, v: u32)
    ensures
        final(out)@ == old(out)@ + le_digits(v as nat, 4),
{
    push_le(out, v as u64, 4);
}

/// Appends the eight little-endian bytes of the two's complement of `v` to `out`.
pub fn push_i64_le(out: &mut Vec<u8>, v: i64)
    ensures
        final(out)@ == old(out)@ + le_digits(twos_complement_64(v), 8),
{
    let x: u64 = if v >= 0 {
        v as u64
    } else {
        ((v + i64::MAX + 1) as u64) + 0x8000_0000_0000_0000u64
    };
    push_le(out, x, 8);
}

/// Appends the two little-endian bytes of the two's complement of `v` to `out`.
pub fn push_i16_le(out: &mut Vec<u8>, v: i16)
    ensures
        final(out)@ == old(out)@ + le_digits(twos_complement_16(v), 2),
{
    let x: u64 = if v >= 0 {
        v as u64
    } else {
        (v as i32 + 0x1_0000i32) as u64
    };
    push_le(out, x, 2);
}

} // verus!
