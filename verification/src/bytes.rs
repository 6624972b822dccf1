//! Little-endian numbers in byte records.
use vstd::prelude::*;

verus! {

/// The number that the bytes write, least significant first.
pub open spec fn le_value(b: Seq<u8>) -> nat
    decreases b.len(),
{
    if b.len() == 0 {
        0
    } else {
        b[0] as nat + 256 * le_value(b.drop_first())
    }
}

/// `v` as `n` bytes, least significant first.
pub open spec fn le_bytes(v: nat, n: nat) -> Seq<u8>
    decreases n,
{
    if n == 0 {
        seq![]
    } else {
        seq![(v % 256) as u8] + le_bytes(v / 256, (n - 1) as nat)
    }
}

/// The numbers that `n` bytes can write are those below this bound.
pub open spec fn le_bound(n: nat) -> nat
    decreases n,
{
    if n == 0 {
        1
    } else {
        256 * le_bound((n - 1) as nat)
    }
}

/// A signed 64-bit number in two's complement.
pub open spec fn twos_complement(v: i64) -> nat {
    if v < 0 {
        (v + 0x1_0000_0000_0000_0000) as nat
    } else {
        v as nat
    }
}

/// `v` as bytes has the length that was asked for.
pub proof fn lemma_le_len(v: nat, n: nat)
    ensures
        le_bytes(v, n).len() == n,
    decreases n,
{
    if n > 0 {
        lemma_le_len(v / 256, (n - 1) as nat);
    }
}

/// The bounds of the widths that records use.
pub proof fn lemma_le_bounds()
    ensures
        le_bound(4) == 0x1_0000_0000,
        le_bound(8) == 0x1_0000_0000_0000_0000,
{
    reveal_with_fuel(le_bound, 9);
}

/// Reading back the bytes of a number gives the number.
pub proof fn lemma_le_round_trip(v: nat, n: nat)
    requires
        v < le_bound(n),
    ensures
        le_value(le_bytes(v, n)) == v,
    decreases n,
{
    if n > 0 {
        lemma_le_round_trip(v / 256, (n - 1) as nat);
        assert(le_bytes(v, n).drop_first() =~= le_bytes(v / 256, (n - 1) as nat));
    }
}

/// A number that was read is below the bound of its width.
pub proof fn lemma_le_value_bound(b: Seq<u8>)
    ensures
        le_value(b) < le_bound(b.len()),
    decreases b.len(),
{
    if b.len() > 0 {
        lemma_le_value_bound(b.drop_first());
    }
}

/// Four bytes write a number by the sum of their worths: the first is worth one, each
/// next one 256 times as much as the one before.
pub proof fn law_four_bytes(b: Seq<u8>)
    requires
        b.len() == 4,
    ensures
        le_value(b) == b[0] + 0x100 * b[1] + 0x1_0000 * b[2] + 0x100_0000 * b[3],
{
    reveal_with_fuel(le_value, 5);
}

/// Eight bytes write a number by the sum of their worths.
pub proof fn law_eight_bytes(b: Seq<u8>)
    requires
        b.len() == 8,
    ensures
        le_value(b) == b[0] + 0x100 * b[1] + 0x1_0000 * b[2] + 0x100_0000 * b[3] + 0x1_0000_0000
            * b[4] + 0x100_0000_0000 * b[5] + 0x1_0000_0000_0000 * b[6] + 0x100_0000_0000_0000
            * b[7],
{
    reveal_with_fuel(le_value, 5);
    let c4 = b.subrange(4, 8);
    law_four_bytes(c4);
    assert(b.drop_first().drop_first().drop_first().drop_first() =~= c4);
}

/// The bits of a signed number are the number itself, or 2^64 more where it is negative.
pub proof fn law_signed_bits(v: i64, w: i64)
    ensures
        twos_complement(v) == v || v < 0 && twos_complement(v) == v + 0x1_0000_0000_0000_0000,
        v >= 0 ==> twos_complement(v) == v,
        twos_complement(v) == twos_complement(w) ==> v == w,
{
}

/// Appends `v` as `n` bytes.
pub fn push_le(out: &mut Vec<u8>, v: u64, n: usize)
    ensures
        final(out)@ == old(out)@ + le_bytes(v as nat, n as nat),
    decreases n,
{
    let ghost before = out@;
    if n > 0 {
        out.push((v % 256) as u8);
        push_le(out, v / 256, n - 1);
    }
    proof {
        assert(out@ =~= before + le_bytes(v as nat, n as nat));
    }
}

/// The number that `n` bytes from `at` on write.
pub fn le_at(b: &[u8], at: usize, n: usize) -> (r: u64)
    requires
        n <= 8,
        at + n <= b.len(),
    ensures
        r == le_value(b@.subrange(at as int, at + n)),
    decreases n,
{
    proof {
        lemma_le_bounds();
        lemma_le_value_bound(b@.subrange(at as int, at + n));
        lemma_le_bound_grows(n as nat, 8);
    }
    if n == 0 {
        0
    } else {
        let rest: u64 = le_at(b, at + 1, n - 1);
        proof {
            assert(b@.subrange(at as int, at + n).drop_first() =~= b@.subrange(at + 1, at + n));
        }
        b[at] as u64 + 256 * rest
    }
}

/// The bounds grow with the width.
pub proof fn lemma_le_bound_grows(a: nat, b: nat)
    requires
        a <= b,
    ensures
        le_bound(a) <= le_bound(b),
        le_bound(a) >= 1,
    decreases b,
{
    if a < b {
        lemma_le_bound_grows(a, (b - 1) as nat);
    } else if a > 0 {
        lemma_le_bound_grows((a - 1) as nat, (b - 1) as nat);
    }
}

/// A signed number as the bits of an unsigned one.
pub fn signed_bits(v: i64) -> (r: u64)
    ensures
        r == twos_complement(v),
{
    if v < 0 {
        (v as i128 + 0x1_0000_0000_0000_0000) as u64
    } else {
        v as u64
    }
}

/// The signed number with these bits.
pub fn bits_signed(v: u64) -> (r: i64)
    ensures
        twos_complement(r) == v,
{
    if v >= 0x8000_0000_0000_0000 {
        (v as i128 - 0x1_0000_0000_0000_0000) as i64
    } else {
        v as i64
    }
}

/// A copy of the bytes.
pub fn copy_bytes(bytes: &[u8]) -> (r: Vec<u8>)
    ensures
        r@ == bytes@,
{
    let mut out: Vec<u8> = Vec::new();
    let mut i: usize = 0;
    while i < bytes.len()
        invariant
            i <= bytes.len(),
            out@ == bytes@.take(i as int),
        decreases bytes.len() - i,
    {
        out.push(bytes[i]);
        i = i + 1;
        proof {
            assert(out@ =~= bytes@.take(i as int));
        }
    }
    proof {
        assert(out@ =~= bytes@);
    }
    out
}

} // verus!
