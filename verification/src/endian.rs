//! Byte order of multi-byte scalars, and the arithmetic that turns integers
//! into bytes and back.

use vstd::prelude::*;

verus! {

/// The byte order of the multi-byte scalars of a message.
#[derive(Clone, Copy, Debug, PartialEq, Eq, Structural)]
pub enum Endianness {
    Big,
    Little,
}

/// `256` to the power `n`.
pub open spec fn pow256(n: nat) -> nat
    decreases n,
{
    if n == 0 {
        1
    } else {
        256 * pow256((n - 1) as nat)
    }
}

/// The `n` low-order base-256 digits of `v`, least significant first.
pub open spec fn le_bytes(v: nat, n: nat) -> Seq<u8>
    decreases n,
{
    if n == 0 {
        Seq::empty()
    } else {
        seq![(v % 256) as u8] + le_bytes(v / 256, (n - 1) as nat)
    }
}

/// The number whose base-256 digits, least significant first, are `b`.
pub open spec fn le_value(b: Seq<u8>) -> nat
    decreases b.len(),
{
    if b.len() == 0 {
        0
    } else {
        b[0] as nat + 256 * le_value(b.drop_first())
    }
}

/// The `n` bytes that stand for the unsigned number `v` in byte order `e`.
pub open spec fn uint_bytes(v: nat, n: nat, e: Endianness) -> Seq<u8> {
    match e {
        Endianness::Little => le_bytes(v, n),
        Endianness::Big => le_bytes(v, n).reverse(),
    }
}

/// The unsigned number that the bytes `b` stand for in byte order `e`.
pub open spec fn uint_value(b: Seq<u8>, e: Endianness) -> nat {
    match e {
        Endianness::Little => le_value(b),
        Endianness::Big => le_value(b.reverse()),
    }
}

/// The two's complement image of `v` among the numbers below `modulus`.
pub open spec fn to_unsigned(v: int, modulus: int) -> nat {
    if v >= 0 {
        v as nat
    } else {
        (v + modulus) as nat
    }
}

/// The signed number whose two's complement image below `modulus` is `x`.
pub open spec fn to_signed(x: nat, modulus: int) -> int {
    if 2 * x < modulus {
        x as int
    } else {
        x - modulus
    }
}

pub proof fn lemma_pow256_values()
    ensures
        pow256(0) == 1,
        pow256(1) == 0x100,
        pow256(2) == 0x1_0000,
        pow256(3) == 0x100_0000,
        pow256(4) == 0x1_0000_0000,
        pow256(5) == 0x100_0000_0000,
        pow256(6) == 0x1_0000_0000_0000,
        pow256(7) == 0x100_0000_0000_0000,
        pow256(8) == 0x1_0000_0000_0000_0000,
{
    reveal_with_fuel(pow256, 9);
}

pub proof fn lemma_le_bytes_len(v: nat, n: nat)
    ensures
        le_bytes(v, n).len() == n,
    decreases n,
{
    if n > 0 {
        lemma_le_bytes_len(v / 256, (n - 1) as nat);
    }
}

pub proof fn lemma_le_value_bound(b: Seq<u8>)
    ensures
        le_value(b) < pow256(b.len()),
    decreases b.len(),
{
    if b.len() > 0 {
        lemma_le_value_bound(b.drop_first());
    }
}

/// Reading back the digits written for a number that fits gives the number.
pub proof fn lemma_le_value_of_bytes(v: nat, n: nat)
    requires
        v < pow256(n),
    ensures
        le_value(le_bytes(v, n)) == v,
    decreases n,
{
    if n > 0 {
        let rest = le_bytes(v / 256, (n - 1) as nat);
        lemma_le_value_of_bytes(v / 256, (n - 1) as nat);
        lemma_le_bytes_len(v / 256, (n - 1) as nat);
        assert(le_bytes(v, n).drop_first() =~= rest);
    }
}

/// Writing the digits of the number that some bytes stand for gives the bytes.
pub proof fn lemma_le_bytes_of_value(b: Seq<u8>)
    ensures
        le_bytes(le_value(b), b.len()) == b,
    decreases b.len(),
{
    if b.len() > 0 {
        let tail = b.drop_first();
        lemma_le_bytes_of_value(tail);
        let v = le_value(b);
        assert(v % 256 == b[0] as nat);
        assert(v / 256 == le_value(tail));
        assert(le_bytes(v, b.len()) =~= b);
    } else {
        assert(le_bytes(le_value(b), b.len()) =~= b);
    }
}

pub proof fn lemma_uint_bytes_len(v: nat, n: nat, e: Endianness)
    ensures
        uint_bytes(v, n, e).len() == n,
{
    lemma_le_bytes_len(v, n);
}

/// In either byte order, a number that fits in `n` bytes is read back from
/// the bytes written for it.
pub proof fn lemma_uint_value_of_bytes(v: nat, n: nat, e: Endianness)
    requires
        v < pow256(n),
    ensures
        uint_value(uint_bytes(v, n, e), e) == v,
{
    lemma_le_value_of_bytes(v, n);
    assert(le_bytes(v, n).reverse().reverse() =~= le_bytes(v, n));
}

/// In either byte order, bytes are written back from the number read from
/// them.
pub proof fn lemma_uint_bytes_of_value(b: Seq<u8>, e: Endianness)
    ensures
        uint_bytes(uint_value(b, e), b.len(), e) == b,
        uint_value(b, e) < pow256(b.len()),
{
    lemma_le_bytes_of_value(b);
    lemma_le_bytes_of_value(b.reverse());
    lemma_le_value_bound(b);
    lemma_le_value_bound(b.reverse());
    assert(b.reverse().reverse() =~= b);
}

pub proof fn lemma_signed_round_trip(v: int, x: nat, modulus: int)
    requires
        modulus > 0,
        modulus % 2 == 0,
    ensures
        -(modulus / 2) <= v < modulus / 2 ==> to_signed(to_unsigned(v, modulus), modulus) == v
            && to_unsigned(v, modulus) < modulus,
        x < modulus ==> to_unsigned(to_signed(x, modulus), modulus) == x && -(modulus / 2)
            <= to_signed(x, modulus) < modulus / 2,
{
}

impl Endianness {
    /// Appends to `buf` the `n` bytes of `v` in this byte order.
    pub fn write_uint(self, buf: &mut Vec<u8>, v: u64, n: usize)
        requires
            n <= 8,
        ensures
            final(buf)@ == old(buf)@ + uint_bytes(v as nat, n as nat, self),
    {
        let ghost before = buf@;
        let mut digits: Vec<u8> = Vec::new();
        let mut rest: u64 = v;
        let mut i: usize = 0;
        while i < n
            invariant
                i <= n,
                digits@.len() == i,
                le_bytes(v as nat, n as nat) == digits@ + le_bytes(rest as nat, (n - i) as nat),
            decreases n - i,
        {
            let ghost tail = le_bytes((rest / 256) as nat, (n - i - 1) as nat);
            assert(digits@.push((rest % 256) as u8) + tail =~= digits@ + (seq![(rest % 256) as u8]
                + tail));
            digits.push((rest % 256) as u8);
            rest = rest / 256;
            i += 1;
        }
        assert(digits@ =~= le_bytes(v as nat, n as nat));
        match self {
            Endianness::Little => {
                let mut j: usize = 0;
                while j < n
                    invariant
                        j <= n,
                        digits@.len() == n,
                        buf@ == before + digits@.take(j as int),
                    decreases n - j,
                {
                    assert(digits@.take(j as int).push(digits@[j as int]) =~= digits@.take(j + 1));
                    assert(before + digits@.take(j + 1) =~= (before + digits@.take(
                        j as int,
                    )).push(digits@[j as int]));
                    buf.push(digits[j]);
                    j += 1;
                }
                assert(digits@.take(n as int) =~= digits@);
            },
            Endianness::Big => {
                let mut j: usize = 0;
                while j < n
                    invariant
                        j <= n,
                        digits@.len() == n,
                        buf@ == before + digits@.reverse().take(j as int),
                    decreases n - j,
                {
                    assert(digits@.reverse().take(j as int).push(digits@[n - 1 - j])
                        =~= digits@.reverse().take(j + 1));
                    assert(before + digits@.reverse().take(j + 1) =~= (before
                        + digits@.reverse().take(j as int)).push(digits@[n - 1 - j]));
                    buf.push(digits[n - 1 - j]);
                    j += 1;
                }
                assert(digits@.reverse().take(n as int) =~= digits@.reverse());
            },
        }
    }

    /// The unsigned number that the `n` bytes of `buf` from `pos` on stand
    /// for in this byte order.
    pub fn read_uint(self, buf: &[u8], pos: usize, n: usize) -> (v: u64)
        requires
            n <= 8,
            pos + n <= buf@.len(),
        ensures
            v as nat == uint_value(buf@.subrange(pos as int, pos + n), self),
            (v as nat) < pow256(n as nat),
    {
        let ghost bytes = buf@.subrange(pos as int, pos + n);
        let len: usize = buf.len();
        let mut acc: u64 = 0;
        let mut k: usize = 0;
        proof {
            lemma_pow256_values();
        }
        match self {
            Endianness::Little => {
                assert(bytes.subrange(n as int, n as int) =~= Seq::<u8>::empty());
                while k < n
                    invariant
                        k <= n <= 8,
                        pos + n <= buf@.len() == len,
                        bytes == buf@.subrange(pos as int, pos + n),
                        acc as nat == le_value(bytes.subrange(n - k, n as int)),
                        (acc as nat) < pow256(k as nat),
                    decreases n - k,
                {
                    let ghost longer = bytes.subrange(n - k - 1, n as int);
                    proof {
                        lemma_pow256_values();
                        assert(pow256(k as nat) <= pow256(7)) by {
                            lemma_pow256_monotonic(k as nat, 7);
                        }
                        assert(longer.drop_first() =~= bytes.subrange(n - k, n as int));
                        assert(longer[0] == buf@[pos + n - k - 1]);
                    }
                    acc = acc * 256 + buf[pos + (n - k - 1)] as u64;
                    k += 1;
                }
                assert(bytes.subrange(0, n as int) =~= bytes);
            },
            Endianness::Big => {
                assert(bytes.subrange(0, 0).reverse() =~= Seq::<u8>::empty());
                while k < n
                    invariant
                        k <= n <= 8,
                        pos + n <= buf@.len() == len,
                        bytes == buf@.subrange(pos as int, pos + n),
                        acc as nat == le_value(bytes.subrange(0, k as int).reverse()),
                        (acc as nat) < pow256(k as nat),
                    decreases n - k,
                {
                    let ghost longer = bytes.subrange(0, k + 1).reverse();
                    proof {
                        lemma_pow256_values();
                        assert(pow256(k as nat) <= pow256(7)) by {
                            lemma_pow256_monotonic(k as nat, 7);
                        }
                        assert(longer.drop_first() =~= bytes.subrange(0, k as int).reverse());
                        assert(longer[0] == buf@[pos + k]);
                    }
                    acc = acc * 256 + buf[pos + k] as u64;
                    k += 1;
                }
                assert(bytes.subrange(0, n as int) =~= bytes);
            },
        }
        acc
    }
}

pub proof fn lemma_pow256_monotonic(a: nat, b: nat)
    requires
        a <= b,
    ensures
        pow256(a) <= pow256(b),
        pow256(a) > 0,
    decreases b,
{
    if a < b {
        lemma_pow256_monotonic(a, (b - 1) as nat);
    } else if a > 0 {
        lemma_pow256_monotonic((a - 1) as nat, (a - 1) as nat);
    }
}

} // verus!
