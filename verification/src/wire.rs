//! Base-128 varint primitives of the tag-length-value wire format.
//!
//! A varint stores a 64-bit value in little-endian 7-bit groups, one group
//! per byte, with the high bit of each byte marking that another byte
//! follows. Encoders emit the minimal form; the reader accepts at most ten
//! bytes and keeps only the low 64 bits of what they spell.

use vstd::prelude::*;

verus! {

/// Minimal varint encoding of a 64-bit value.
pub open spec fn varint(x: u64) -> Seq<u8>
    decreases x,
{
    if x < 128 {
        seq![x as u8]
    } else {
        seq![((x % 128) + 128) as u8] + varint((x / 128) as u64)
    }
}

/// Number of bytes of the minimal varint encoding, stated as the usual
/// range ladder.
pub open spec fn varint_size(x: u64) -> int {
    if x < 0x80 {
        1
    } else if x < 0x4000 {
        2
    } else if x < 0x20_0000 {
        3
    } else if x < 0x1000_0000 {
        4
    } else if x < 0x8_0000_0000 {
        5
    } else if x < 0x400_0000_0000 {
        6
    } else if x < 0x2_0000_0000_0000 {
        7
    } else if x < 0x100_0000_0000_0000 {
        8
    } else if x < 0x8000_0000_0000_0000 {
        9
    } else {
        10
    }
}

pub proof fn lemma_varint_size(x: u64)
    ensures
        varint(x).len() == varint_size(x),
    decreases x,
{
    if x >= 128 {
        lemma_varint_size((x / 128) as u64);
    }
}

/// 128 to the power `n`: the least value whose varint takes more than `n`
/// bytes.
pub open spec fn pow128(n: int) -> int
    decreases n,
{
    if n <= 0 {
        1
    } else {
        128 * pow128(n - 1)
    }
}

/// Result of reading one varint from the front of `bytes`: the unbounded
/// sum the 7-bit groups spell, and the number of bytes consumed. `None`
/// when the input ends inside the varint or a varint runs past ten bytes.
pub open spec fn take_varint(bytes: Seq<u8>) -> Option<(int, int)>
    decreases bytes.len(),
{
    if bytes.len() == 0 {
        None
    } else if bytes[0] < 128 {
        Some((bytes[0] as int, 1))
    } else {
        match take_varint(bytes.skip(1)) {
            None => None,
            Some((v, n)) => if n >= 10 {
                None
            } else {
                Some(((bytes[0] - 128) + 128 * v, n + 1))
            },
        }
    }
}

pub proof fn lemma_take_varint_bounds(bytes: Seq<u8>)
    ensures
        match take_varint(bytes) {
            None => true,
            Some((v, n)) => 0 <= v < pow128(n) && 1 <= n <= 10 && n <= bytes.len(),
        },
    decreases bytes.len(),
{
    reveal_with_fuel(pow128, 3);
    if bytes.len() > 0 && bytes[0] >= 128 {
        lemma_take_varint_bounds(bytes.skip(1));
        if let Some((v, n)) = take_varint(bytes.skip(1)) {
            assert(pow128(n + 1) == 128 * pow128(n));
        }
    }
}

/// Reading a varint from an encoding followed by anything yields the
/// encoded value and consumes exactly the encoding.
pub proof fn lemma_take_varint_of_encoding(x: u64, rest: Seq<u8>)
    ensures
        take_varint(varint(x) + rest) == Some((x as int, varint(x).len() as int)),
    decreases x,
{
    let bytes = varint(x) + rest;
    if x < 128 {
        assert(bytes[0] == x as u8);
        assert(take_varint(bytes) == Some((x as int, 1int)));
    } else {
        let q: u64 = (x / 128) as u64;
        lemma_take_varint_of_encoding(q, rest);
        lemma_varint_size(x);
        lemma_varint_size(q);
        assert(q < 0x8000_0000_0000_0000) by {
            assert(x / 128 < 0x2_0000_0000_0000_000) by (nonlinear_arith)
                requires
                    x <= 0xffff_ffff_ffff_ffff,
            ;
        }
        assert(bytes.skip(1) =~= varint(q) + rest);
        assert(bytes[0] == ((x % 128) + 128) as u8);
        assert((bytes[0] - 128) + 128 * (q as int) == x as int) by (nonlinear_arith)
            requires
                bytes[0] == ((x % 128) + 128) as u8,
                q == (x / 128) as u64,
                x >= 128,
        ;
    }
}

/// Read one varint starting at `pos`, returning its raw group sum and the
/// number of bytes consumed.
pub fn read_varint(bytes: &[u8], pos: usize) -> (r: Option<(u128, usize)>)
    requires
        pos <= bytes.len(),
    ensures
        (match r {
            Some((v, n)) => {
                &&& take_varint(bytes@.skip(pos as int)) == Some((v as int, n as int))
                &&& 1 <= n <= 10
                &&& pos + n <= bytes.len()
                &&& (v as int) < pow128(n as int)
            },
            None => take_varint(bytes@.skip(pos as int)) is None,
        }),
    decreases bytes.len() - pos,
{
    if pos == bytes.len() {
        None
    } else {
        let b = bytes[pos];
        assert(bytes@.skip(pos as int)[0] == b);
        if b < 128 {
            proof {
                reveal_with_fuel(pow128, 3);
            }
            Some((b as u128, 1))
        } else {
            assert(bytes@.skip(pos as int).skip(1) =~= bytes@.skip(pos as int + 1));
            match read_varint(bytes, pos + 1) {
                None => None,
                Some((v, n)) => {
                    if n >= 10 {
                        None
                    } else {
                        proof {
                            lemma_pow128_le(n as int, 9);
                            lemma_pow128_nine();
                            assert(pow128(n as int + 1) == 128 * pow128(n as int));
                        }
                        Some((((b - 128) as u128) + 128 * v, n + 1))
                    }
                },
            }
        }
    }
}

proof fn lemma_pow128_pos(a: int)
    ensures
        pow128(a) >= 1,
    decreases a,
{
    if a > 0 {
        lemma_pow128_pos(a - 1);
    }
}

proof fn lemma_pow128_le(a: int, b: int)
    requires
        a <= b,
    ensures
        1 <= pow128(a) <= pow128(b),
    decreases b,
{
    lemma_pow128_pos(a);
    if a < b && b > 0 {
        lemma_pow128_le(a, b - 1);
        lemma_pow128_pos(b - 1);
    }
}

proof fn lemma_pow128_nine()
    ensures
        pow128(9) == 0x8000_0000_0000_0000,
{
    reveal_with_fuel(pow128, 11);
}

/// Append the varint encoding of `x`.
pub fn write_varint(out: &mut Vec<u8>, x: u64)
    ensures
        final(out)@ == old(out)@ + varint(x),
    decreases x,
{
    if x < 128 {
        out.push(x as u8);
        assert(out@ =~= old(out)@ + varint(x));
    } else {
        let b: u8 = ((x % 128) + 128) as u8;
        out.push(b);
        write_varint(out, x / 128);
        assert(out@ =~= old(out)@ + varint(x));
    }
}

/// Exact size of the minimal varint encoding of `x`.
pub fn sizeof_varint(x: u64) -> (r: usize)
    ensures
        r as int == varint(x).len(),
        1 <= r <= 10,
{
    proof {
        lemma_varint_size(x);
    }
    if x < 0x80 {
        1
    } else if x < 0x4000 {
        2
    } else if x < 0x20_0000 {
        3
    } else if x < 0x1000_0000 {
        4
    } else if x < 0x8_0000_0000 {
        5
    } else if x < 0x400_0000_0000 {
        6
    } else if x < 0x2_0000_0000_0000 {
        7
    } else if x < 0x100_0000_0000_0000 {
        8
    } else if x < 0x8000_0000_0000_0000 {
        9
    } else {
        10
    }
}

/// The 64-bit pattern a 32-bit value is widened to before encoding:
/// non-negative values unchanged, negative ones sign-extended.
pub open spec fn as_u64(v: i32) -> u64 {
    if v >= 0 {
        v as u64
    } else {
        (v + 0x1_0000_0000_0000_0000) as u64
    }
}

/// The 32-bit value a raw varint group sum is narrowed to: the low 32 bits,
/// reinterpreted as two's complement.
pub open spec fn int32_of_raw(raw: int) -> i32 {
    let m = raw % 0x1_0000_0000;
    if m >= 0x8000_0000 {
        (m - 0x1_0000_0000) as i32
    } else {
        m as i32
    }
}

/// Narrowing the widening of a value gives the value back.
pub proof fn lemma_int32_round(v: i32)
    ensures
        int32_of_raw(as_u64(v) as int) == v,
{
    if v >= 0 {
        assert(as_u64(v) as int % 0x1_0000_0000 == v as int) by (nonlinear_arith)
            requires
                0 <= v < 0x8000_0000,
                as_u64(v) == v,
        ;
    } else {
        let raw = as_u64(v) as int;
        assert(raw % 0x1_0000_0000 == v + 0x1_0000_0000) by (nonlinear_arith)
            requires
                raw == v + 0x1_0000_0000_0000_0000,
                -0x8000_0000 <= v < 0,
        ;
    }
}

/// Sign-extend a 32-bit value into the 64-bit pattern the encoder emits.
pub fn u64_from_i32(v: i32) -> (r: u64)
    ensures
        r == as_u64(v),
{
    if v >= 0 {
        v as u64
    } else {
        let mag: u64 = (-(v as i64)) as u64;
        (u64::MAX - mag) + 1
    }
}

/// Keep the low 32 bits of a raw varint group sum, as two's complement.
pub fn i32_from_raw(raw: u128) -> (r: i32)
    ensures
        r == int32_of_raw(raw as int),
{
    let m: u32 = (raw % 0x1_0000_0000) as u32;
    if m >= 0x8000_0000 {
        let d: u32 = m - 0x8000_0000;
        (d as i32) + i32::MIN
    } else {
        m as i32
    }
}

} // verus!
