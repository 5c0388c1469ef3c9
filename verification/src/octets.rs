//! Integers as byte strings, least significant byte first and most significant
//! byte first.

use vstd::prelude::*;

verus! {

/// The `n` low bytes of `x`, least significant first.
pub open spec fn le_bytes(x: nat, n: nat) -> Seq<u8>
    decreases n,
{
    if n == 0 {
        Seq::empty()
    } else {
        seq![(x % 256) as u8] + le_bytes(x / 256, (n - 1) as nat)
    }
}

/// The number that a byte string spells, least significant byte first.
pub open spec fn le_value(s: Seq<u8>) -> nat
    decreases s.len(),
{
    if s.len() == 0 {
        0
    } else {
        s[0] as nat + 256 * le_value(s.drop_first())
    }
}

/// The number that a byte string spells, most significant byte first.
pub open spec fn be_value(s: Seq<u8>) -> nat
    decreases s.len(),
{
    if s.len() == 0 {
        0
    } else {
        256 * be_value(s.drop_last()) + s.last() as nat
    }
}

/// The `n` low bytes of `x`, most significant first.
pub open spec fn be_bytes(x: nat, n: nat) -> Seq<u8>
    decreases n,
{
    if n == 0 {
        Seq::empty()
    } else {
        be_bytes(x / 256, (n - 1) as nat).push((x % 256) as u8)
    }
}

/// `256` to the power of `n`.
pub open spec fn radix_power(n: nat) -> nat
    decreases n,
{
    if n == 0 {
        1
    } else {
        256 * radix_power((n - 1) as nat)
    }
}

/// The powers of `256` that fixed-width integers need.
pub proof fn lemma_radix_powers()
    ensures
        radix_power(1) == 0x100,
        radix_power(2) == 0x1_0000,
        radix_power(4) == 0x1_0000_0000,
        radix_power(8) == 0x1_0000_0000_0000_0000,
{
    reveal_with_fuel(radix_power, 9);
}

/// A byte string has as many bytes as asked for.
pub proof fn lemma_le_bytes_len(x: nat, n: nat)
    ensures
        le_bytes(x, n).len() == n,
    decreases n,
{
    if n > 0 {
        lemma_le_bytes_len(x / 256, (n - 1) as nat);
    }
}

/// A big-endian byte string has as many bytes as asked for.
pub proof fn lemma_be_bytes_len(x: nat, n: nat)
    ensures
        be_bytes(x, n).len() == n,
    decreases n,
{
    if n > 0 {
        lemma_be_bytes_len(x / 256, (n - 1) as nat);
    }
}

/// Reading back what was written gives the number, if it fits.
pub proof fn law_le_bytes_read_back(x: nat, n: nat)
    requires
        x < radix_power(n),
    ensures
        le_value(le_bytes(x, n)) == x,
    decreases n,
{
    if n > 0 {
        let rest = le_bytes(x / 256, (n - 1) as nat);
        law_le_bytes_read_back(x / 256, (n - 1) as nat);
        assert(le_bytes(x, n).drop_first() =~= rest);
    }
}

/// Writing what was read gives the bytes back.
pub proof fn law_le_value_write_back(s: Seq<u8>)
    ensures
        le_bytes(le_value(s), s.len()) == s,
    decreases s.len(),
{
    if s.len() > 0 {
        law_le_value_write_back(s.drop_first());
        assert(le_bytes(le_value(s), s.len()) =~= s);
    } else {
        assert(le_bytes(le_value(s), s.len()) =~= s);
    }
}

/// Reading a big-endian byte string back gives the number, if it fits.
pub proof fn law_be_bytes_read_back(x: nat, n: nat)
    requires
        x < radix_power(n),
    ensures
        be_value(be_bytes(x, n)) == x,
    decreases n,
{
    if n > 0 {
        law_be_bytes_read_back(x / 256, (n - 1) as nat);
        assert(be_bytes(x, n).drop_last() =~= be_bytes(x / 256, (n - 1) as nat));
    }
}

/// A byte string spells a number below the power of its length.
pub proof fn lemma_le_value_bound(s: Seq<u8>)
    ensures
        le_value(s) < radix_power(s.len()),
    decreases s.len(),
{
    if s.len() > 0 {
        lemma_le_value_bound(s.drop_first());
    }
}

/// The same of a number that is spelled most significant byte first.
pub proof fn lemma_be_value_bound(s: Seq<u8>)
    ensures
        be_value(s) < radix_power(s.len()),
    decreases s.len(),
{
    if s.len() > 0 {
        lemma_be_value_bound(s.drop_last());
    }
}

/// Appends the `n` low bytes of `x`, least significant first.
pub fn push_le(out: &mut Vec<u8>, x: u64, n: usize)
    ensures
        final(out)@ == old(out)@ + le_bytes(x as nat, n as nat),
{
    let mut rest: u64 = x;
    let mut i: usize = 0;
    proof {
        assert(out@ + le_bytes(rest as nat, n as nat) =~= old(out)@ + le_bytes(x as nat, n as nat));
    }
    while i < n
        invariant
            i <= n,
            out@ + le_bytes(rest as nat, (n - i) as nat) == old(out)@ + le_bytes(
                x as nat,
                n as nat,
            ),
        decreases n - i,
    {
        let ghost before = out@;
        let ghost tail = le_bytes((rest / 256) as nat, (n - i - 1) as nat);
        out.push((rest % 256) as u8);
        proof {
            assert(le_bytes(rest as nat, (n - i) as nat) =~= seq![(rest % 256) as u8] + tail);
            assert(before.push((rest % 256) as u8) + tail =~= before + le_bytes(
                rest as nat,
                (n - i) as nat,
            ));
        }
        rest = rest / 256;
        i = i + 1;
    }
    proof {
        assert(out@ + le_bytes(rest as nat, 0) =~= out@);
    }
}

/// The number that `n` bytes from `start` on spell, least significant first.
pub fn read_le(bytes: &[u8], start: usize, n: usize) -> (x: u64)
    requires
        n <= 8,
        start + n <= bytes@.len(),
    ensures
        x == le_value(bytes@.subrange(start as int, start + n)),
{
    let mut x: u64 = 0;
    let mut i: usize = n;
    proof {
        assert(bytes@.subrange(start + n, start + n) =~= Seq::<u8>::empty());
        lemma_radix_powers();
    }
    while i > 0
        invariant
            i <= n <= 8,
            start + n <= bytes.len(),
            x == le_value(bytes@.subrange(start + i, start + n)),
        decreases i,
    {
        let ghost tail = bytes@.subrange(start + i, start + n);
        let ghost longer = bytes@.subrange(start + i - 1, start + n);
        proof {
            assert(longer.drop_first() =~= tail);
            lemma_le_value_bound(longer);
            lemma_radix_at_most_eight(longer.len());
        }
        x = x * 256 + bytes[start + i - 1] as u64;
        i = i - 1;
    }
    x
}

proof fn lemma_radix_at_most_eight(n: nat)
    requires
        n <= 8,
    ensures
        radix_power(n) <= 0x1_0000_0000_0000_0000,
{
    reveal_with_fuel(radix_power, 9);
}

/// A byte string cut or filled up with zeros to `n` bytes.
pub open spec fn padded(s: Seq<u8>, n: nat) -> Seq<u8> {
    Seq::new(
        n,
        |i: int|
            if i < s.len() {
                s[i]
            } else {
                0u8
            },
    )
}

/// Appends a byte string.
pub fn push_all(out: &mut Vec<u8>, bytes: &[u8])
    ensures
        final(out)@ == old(out)@ + bytes@,
{
    out.extend_from_slice(bytes);
    proof {
        assert(out@ =~= old(out)@ + bytes@);
    }
}

/// Cuts a byte string or fills it up with zeros to `n` bytes.
pub fn pad_to(out: &mut Vec<u8>, n: usize)
    ensures
        final(out)@ == padded(old(out)@, n as nat),
{
    out.resize(n, 0);
    proof {
        let before = old(out)@;
        assert forall|i: int| 0 <= i < out@.len() implies out@[i] == padded(before, n as nat)[i] by {
            if before.len() < n && i < before.len() {
                assert(out@.subrange(0, before.len() as int)[i] == before[i]);
            }
        }
        assert(out@ =~= padded(before, n as nat));
    }
}

/// The four bytes of `x`, most significant first.
pub fn be_u32(x: u32) -> (bytes: Vec<u8>)
    ensures
        bytes@ == be_bytes(x as nat, 4),
{
    let mut bytes: Vec<u8> = Vec::new();
    bytes.push((x / 0x100_0000) as u8);
    bytes.push(((x / 0x1_0000) % 256) as u8);
    bytes.push(((x / 0x100) % 256) as u8);
    bytes.push((x % 256) as u8);
    proof {
        reveal_with_fuel(be_bytes, 5);
        assert(bytes@ =~= be_bytes(x as nat, 4));
    }
    bytes
}

/// The number that the first four bytes spell, most significant first.
pub fn read_be_u32(bytes: &[u8]) -> (x: u32)
    requires
        bytes@.len() >= 4,
    ensures
        x == be_value(bytes@.take(4)),
{
    proof {
        let s = bytes@.take(4);
        reveal_with_fuel(be_value, 5);
        assert(s.drop_last() =~= bytes@.take(3));
        assert(s.drop_last().drop_last() =~= bytes@.take(2));
        assert(s.drop_last().drop_last().drop_last() =~= bytes@.take(1));
        assert(s.drop_last().drop_last().drop_last().drop_last() =~= Seq::<u8>::empty());
    }
    bytes[0] as u32 * 0x100_0000 + bytes[1] as u32 * 0x1_0000 + bytes[2] as u32 * 0x100
        + bytes[3] as u32
}

/// The signed value of a 32-bit pattern, in two's complement.
pub open spec fn signed32(x: int) -> int {
    if x < 0x8000_0000 {
        x
    } else {
        x - 0x1_0000_0000
    }
}

/// Reads a 32-bit pattern as a signed number.
pub fn to_signed32(x: u32) -> (v: i32)
    ensures
        v == signed32(x as int),
{
    if x < 0x8000_0000 {
        x as i32
    } else {
        (x as i64 - 0x1_0000_0000) as i32
    }
}

} // verus!
