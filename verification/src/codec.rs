//! Variable-length integer codec: 7-bit groups, least-significant first,
//! with the high bit of each byte as a continuation flag. A 32-bit value
//! takes 1 to 5 bytes on the wire, a 64-bit value 1 to 10.

use vstd::prelude::*;

verus! {

/// How a var-int read can fail: the bytes ran out before a terminating
/// byte, or the group limit was reached with every byte still carrying
/// the continuation flag.
#[derive(Clone, Copy, Debug, PartialEq, Eq, Structural)]
pub enum VarFail {
    OutOfBytes,
    Unterminated,
}

/// The unsigned 32-bit pattern of a signed value, as a mathematical integer.
pub open spec fn unsigned32(v: i32) -> nat {
    if v >= 0 {
        v as nat
    } else {
        (v + 0x1_0000_0000) as nat
    }
}

/// The unsigned 64-bit pattern of a signed value, as a mathematical integer.
pub open spec fn unsigned64(v: i64) -> nat {
    if v >= 0 {
        v as nat
    } else {
        (v + 0x1_0000_0000_0000_0000) as nat
    }
}

/// Byte count of the var-int encoding of `v` under the shift-based size
/// rule: the least `n` in 1..=4 whose `n * 7` low bits cover the whole
/// two's-complement pattern, and otherwise 5. Every negative value keeps
/// its sign bit, so it always takes the maximum 5 bytes.
pub open spec fn var_i32_size(v: i32) -> int {
    if v < 0 {
        5
    } else if v < 0x80 {
        1
    } else if v < 0x4000 {
        2
    } else if v < 0x20_0000 {
        3
    } else if v < 0x1000_0000 {
        4
    } else {
        5
    }
}

/// Byte count of the var-long encoding of `v`: the least `n` in 1..=9
/// whose `n * 7` low bits cover the whole two's-complement pattern, and
/// otherwise 10. Every negative value takes the maximum 10 bytes.
pub open spec fn var_i64_size(v: i64) -> int {
    if v < 0 {
        10
    } else if v < 0x80 {
        1
    } else if v < 0x4000 {
        2
    } else if v < 0x20_0000 {
        3
    } else if v < 0x1000_0000 {
        4
    } else if v < 0x8_0000_0000 {
        5
    } else if v < 0x400_0000_0000 {
        6
    } else if v < 0x2_0000_0000_0000 {
        7
    } else if v < 0x100_0000_0000_0000 {
        8
    } else {
        9
    }
}

/// The var-int encoding of an unsigned value: 7-bit groups, least
/// significant first, continuation bit set on every byte but the last.
pub open spec fn varint_bytes(u: nat) -> Seq<u8>
    decreases u,
{
    if u < 0x80 {
        seq![u as u8]
    } else {
        seq![(0x80 + (u % 0x80)) as u8] + varint_bytes(u / 0x80)
    }
}

/// What a var-int read starting at `pos` in `data` yields, with at most
/// `limit` bytes allowed: the accumulated unsigned value and the number of
/// bytes consumed, or the failure.
pub open spec fn spec_varint_at(data: Seq<u8>, pos: int, limit: nat) -> Result<(nat, nat), VarFail>
    decreases limit,
{
    if limit == 0 {
        Err(VarFail::Unterminated)
    } else if !(0 <= pos < data.len()) {
        Err(VarFail::OutOfBytes)
    } else if data[pos] < 0x80 {
        Ok((data[pos] as nat, 1))
    } else {
        match spec_varint_at(data, pos + 1, (limit - 1) as nat) {
            Ok((v, n)) => Ok((((data[pos] - 0x80) + 0x80 * v) as nat, n + 1)),
            Err(e) => Err(e),
        }
    }
}

/// 0x80 raised to the `k`th power: the place value of the `k`th 7-bit group.
pub open spec fn pow128(k: nat) -> nat
    decreases k,
{
    if k == 0 {
        1
    } else {
        0x80 * pow128((k - 1) as nat)
    }
}

/// The signed 32-bit value whose two's-complement pattern is the low
/// 32 bits of `u`.
pub open spec fn truncate32(u: nat) -> i32 {
    if u % 0x1_0000_0000 < 0x8000_0000 {
        (u % 0x1_0000_0000) as i32
    } else {
        (u % 0x1_0000_0000 - 0x1_0000_0000) as i32
    }
}

/// The signed 64-bit value whose two's-complement pattern is the low
/// 64 bits of `u`.
pub open spec fn truncate64(u: nat) -> i64 {
    if u % 0x1_0000_0000_0000_0000 < 0x8000_0000_0000_0000 {
        (u % 0x1_0000_0000_0000_0000) as i64
    } else {
        (u % 0x1_0000_0000_0000_0000 - 0x1_0000_0000_0000_0000) as i64
    }
}

/// `pow128` is at least 1 everywhere.
proof fn lemma_pow128_pos(k: nat)
    ensures
        pow128(k) >= 1,
    decreases k,
{
    if k > 0 {
        lemma_pow128_pos((k - 1) as nat);
    }
}

/// On 0..=10, `pow128` never exceeds its value at 10.
proof fn lemma_pow128_le_ten(k: nat)
    requires
        k <= 10,
    ensures
        pow128(k) <= 0x40_0000_0000_0000_0000,
{
    reveal_with_fuel(pow128, 11);
}

/// Every value of `pow128` on 0..=10, by unfolding.
pub proof fn lemma_pow128_unfold_all()
    ensures
        pow128(0) == 1,
        pow128(1) == 0x80,
        pow128(2) == 0x4000,
        pow128(3) == 0x20_0000,
        pow128(4) == 0x1000_0000,
        pow128(5) == 0x8_0000_0000,
        pow128(6) == 0x400_0000_0000,
        pow128(7) == 0x2_0000_0000_0000,
        pow128(8) == 0x100_0000_0000_0000,
        pow128(9) == 0x8000_0000_0000_0000,
        pow128(10) == 0x40_0000_0000_0000_0000,
{
    reveal_with_fuel(pow128, 11);
}

/// A successful var-int read consumes between 1 and `limit` bytes, stays
/// inside `data`, and its value is below the place value of the first
/// group it never read.
pub proof fn lemma_varint_value_bound(data: Seq<u8>, pos: int, limit: nat)
    ensures
        spec_varint_at(data, pos, limit) matches Ok(p) ==> p.0 < pow128(limit) && 1 <= p.1
            <= limit && pos + p.1 <= data.len(),
    decreases limit,
{
    if limit > 0 && 0 <= pos < data.len() {
        lemma_pow128_pos((limit - 1) as nat);
        if data[pos] < 0x80 {
            assert(0x80 * pow128((limit - 1) as nat) >= 0x80) by (nonlinear_arith)
                requires
                    pow128((limit - 1) as nat) >= 1,
            ;
        } else {
            lemma_varint_value_bound(data, pos + 1, (limit - 1) as nat);
            if let Ok((v, n)) = spec_varint_at(data, pos + 1, (limit - 1) as nat) {
                assert((data[pos] - 0x80) + 0x80 * v < 0x80 * pow128((limit - 1) as nat))
                    by (nonlinear_arith)
                    requires
                        v < pow128((limit - 1) as nat),
                        data[pos] - 0x80 < 0x80,
                ;
            }
        }
    }
}

/// The encoding of `u` spans one byte for each base-0x80 digit of `u`:
/// its length is the least `n >= 1` with `u < pow128(n)`.
pub proof fn lemma_varint_bytes_len(u: nat)
    ensures
        varint_bytes(u).len() >= 1,
        u < 0x80 ==> varint_bytes(u).len() == 1,
        u >= 0x80 ==> varint_bytes(u).len() == 1 + varint_bytes(u / 0x80).len(),
        pow128((varint_bytes(u).len() - 1) as nat) <= u || u < 0x80,
        u < pow128(varint_bytes(u).len() as nat),
    decreases u,
{
    lemma_pow128_pos(0);
    if u < 0x80 {
        assert(pow128(1) == 0x80) by {
            reveal_with_fuel(pow128, 2);
        }
    } else {
        lemma_varint_bytes_len(u / 0x80);
        let m = varint_bytes(u / 0x80).len();
        assert(u / 0x80 < pow128(m as nat) ==> u < 0x80 * pow128(m as nat)) by (nonlinear_arith);
        if u / 0x80 >= 0x80 {
            assert(pow128((m - 1) as nat) <= u / 0x80 ==> 0x80 * pow128((m - 1) as nat) <= u)
                by (nonlinear_arith);
        } else {
            assert(pow128(1) == 0x80) by {
                reveal_with_fuel(pow128, 2);
            }
            assert(0x80 <= u);
        }
    }
}

/// Wherever a slice of `data` holds exactly the encoding of `u`, a var-int
/// read at its start yields `u` back after exactly that many bytes — the
/// round trip for every value whose encoding respects the group limit.
pub proof fn lemma_varint_round_trip(data: Seq<u8>, pos: int, limit: nat, u: nat)
    requires
        0 <= pos,
        pos + varint_bytes(u).len() <= data.len(),
        data.subrange(pos, pos + varint_bytes(u).len()) == varint_bytes(u),
        varint_bytes(u).len() <= limit,
    ensures
        spec_varint_at(data, pos, limit) == Ok::<(nat, nat), VarFail>((
            u,
            varint_bytes(u).len() as nat,
        )),
    decreases u,
{
    let enc = varint_bytes(u);
    assert(data[pos] == enc[0]);
    if u < 0x80 {
    } else {
        let rest = varint_bytes(u / 0x80);
        assert(data.subrange(pos + 1, pos + 1 + rest.len()) =~= rest) by {
            assert forall|i: int| 0 <= i < rest.len() implies data[pos + 1 + i] == rest[i] by {
                assert(enc[i + 1] == rest[i]);
                assert(data[pos + 1 + i] == data.subrange(pos, pos + enc.len())[i + 1]);
            }
        }
        lemma_varint_round_trip(data, pos + 1, (limit - 1) as nat, u / 0x80);
        assert(data[pos] == 0x80 + (u % 0x80));
        assert((data[pos] - 0x80) + 0x80 * (u / 0x80) == u) by (nonlinear_arith)
            requires
                data[pos] == 0x80 + (u % 0x80),
        ;
    }
}

/// A var-int read that sees its full group budget of bytes all carrying
/// the continuation flag fails as unterminated, whatever follows.
pub proof fn lemma_varint_unterminated(data: Seq<u8>, pos: int, limit: nat)
    requires
        0 <= pos,
        pos + limit <= data.len(),
        forall|k: int| 0 <= k < limit ==> #[trigger] data[pos + k] >= 0x80,
    ensures
        spec_varint_at(data, pos, limit) == Err::<(nat, nat), VarFail>(VarFail::Unterminated),
    decreases limit,
{
    if limit > 0 {
        assert(data[pos + 0] >= 0x80);
        assert forall|k: int| 0 <= k < limit - 1 implies #[trigger] data[(pos + 1) + k]
            >= 0x80 by {
            assert(data[pos + (k + 1)] >= 0x80);
        }
        lemma_varint_unterminated(data, pos + 1, (limit - 1) as nat);
    }
}

/// Round trip for 32-bit values: the encoding of `v` is `var_i32_size(v)`
/// bytes long, decoding it within the 5-byte limit succeeds with the bit
/// pattern of `v`, and reading that pattern back as signed yields `v`.
pub proof fn lemma_var_i32_round_trip(v: i32)
    ensures
        varint_bytes(unsigned32(v)).len() == var_i32_size(v),
        spec_varint_at(varint_bytes(unsigned32(v)), 0, 5) == Ok::<(nat, nat), VarFail>((
            unsigned32(v),
            var_i32_size(v) as nat,
        )),
        truncate32(unsigned32(v)) == v,
{
    lemma_i32_size_len(v);
    let enc = varint_bytes(unsigned32(v));
    assert(enc.subrange(0, enc.len() as int) =~= enc);
    lemma_varint_round_trip(enc, 0, 5, unsigned32(v));
}

/// Round trip for 64-bit values, within the 10-byte limit.
pub proof fn lemma_var_i64_round_trip(v: i64)
    ensures
        varint_bytes(unsigned64(v)).len() == var_i64_size(v),
        spec_varint_at(varint_bytes(unsigned64(v)), 0, 10) == Ok::<(nat, nat), VarFail>((
            unsigned64(v),
            var_i64_size(v) as nat,
        )),
        truncate64(unsigned64(v)) == v,
{
    lemma_i64_size_len(v);
    let enc = varint_bytes(unsigned64(v));
    assert(enc.subrange(0, enc.len() as int) =~= enc);
    lemma_varint_round_trip(enc, 0, 10, unsigned64(v));
}

/// The size boundaries of the wire format: values 0..=127 encode in one
/// byte, 128..=16383 in two, and the all-bits-set negative value takes
/// the maximum — 5 bytes as a var-int, 10 as a var-long — under the
/// shift-based size rule, which sends every negative value to the
/// maximum.
pub proof fn lemma_size_boundaries(v32: i32, v64: i64)
    ensures
        0 <= v32 <= 127 ==> varint_bytes(unsigned32(v32)).len() == 1,
        128 <= v32 <= 16383 ==> varint_bytes(unsigned32(v32)).len() == 2,
        v32 < 0 ==> varint_bytes(unsigned32(v32)).len() == 5,
        0 <= v64 <= 127 ==> varint_bytes(unsigned64(v64)).len() == 1,
        128 <= v64 <= 16383 ==> varint_bytes(unsigned64(v64)).len() == 2,
        v64 < 0 ==> varint_bytes(unsigned64(v64)).len() == 10,
{
    lemma_i32_size_len(v32);
    lemma_i64_size_len(v64);
}

/// The computed size function agrees with the encoded length, 32-bit case.
pub proof fn lemma_i32_size_len(v: i32)
    ensures
        varint_bytes(unsigned32(v)).len() == var_i32_size(v),
{
    lemma_varint_bytes_len_ranges(unsigned32(v));
}

/// The computed size function agrees with the encoded length, 64-bit case.
pub proof fn lemma_i64_size_len(v: i64)
    ensures
        varint_bytes(unsigned64(v)).len() == var_i64_size(v),
{
    lemma_varint_bytes_len_ranges(unsigned64(v));
}

/// The encoded length of `u`, range by range.
proof fn lemma_varint_bytes_len_ranges(u: nat)
    requires
        u < 0x1_0000_0000_0000_0000,
    ensures
        varint_bytes(u).len() == if u < 0x80 {
            1int
        } else if u < 0x4000 {
            2int
        } else if u < 0x20_0000 {
            3int
        } else if u < 0x1000_0000 {
            4int
        } else if u < 0x8_0000_0000 {
            5int
        } else if u < 0x400_0000_0000 {
            6int
        } else if u < 0x2_0000_0000_0000 {
            7int
        } else if u < 0x100_0000_0000_0000 {
            8int
        } else if u < 0x8000_0000_0000_0000 {
            9int
        } else {
            10int
        },
{
    lemma_varint_bytes_len(u);
    lemma_pow128_unfold_all();
    let n = varint_bytes(u).len();
    assert(n <= 10) by {
        if n > 10 {
            lemma_pow128_mono(10, (n - 1) as nat);
        }
    }
}

/// `pow128` is monotone.
pub proof fn lemma_pow128_mono(a: nat, b: nat)
    requires
        a <= b,
    ensures
        pow128(a) <= pow128(b),
    decreases b - a,
{
    if a < b {
        lemma_pow128_mono(a, (b - 1) as nat);
        lemma_pow128_pos((b - 1) as nat);
        assert(pow128(b) == 0x80 * pow128((b - 1) as nat));
        assert(pow128((b - 1) as nat) <= 0x80 * pow128((b - 1) as nat)) by (nonlinear_arith)
            requires
                pow128((b - 1) as nat) >= 1,
        ;
    }
}

/// Reads one var-int starting at `pos`, consuming at most `limit` bytes.
/// Returns the accumulated unsigned value and the byte count consumed.
pub fn decode_varint(data: &Vec<u8>, pos: usize, limit: usize) -> (r: Result<(u128, usize), VarFail>)
    requires
        pos <= data@.len(),
        limit <= 10,
    ensures
        (match spec_varint_at(data@, pos as int, limit as nat) {
            Ok(p) => r matches Ok(q) && q.0 as nat == p.0 && q.1 as nat == p.1,
            Err(e) => r == Err::<(u128, usize), VarFail>(e),
        }),
    decreases limit,
{
    if limit == 0 {
        return Err(VarFail::Unterminated);
    }
    if pos >= data.len() {
        return Err(VarFail::OutOfBytes);
    }
    let b = data[pos];
    if b < 0x80 {
        return Ok((b as u128, 1));
    }
    match decode_varint(data, pos + 1, limit - 1) {
        Ok((v, n)) => {
            proof {
                lemma_varint_value_bound(data@, pos + 1 as int, (limit - 1) as nat);
                lemma_pow128_le_ten((limit - 1) as nat);
                assert(0x80 * (v as nat) <= 0x80 * pow128((limit - 1) as nat))
                    by (nonlinear_arith)
                    requires
                        (v as nat) <= pow128((limit - 1) as nat),
                ;
            }
            Ok((((b - 0x80) as u128) + 0x80 * v, n + 1))
        },
        Err(e) => Err(e),
    }
}

/// Appends the var-int encoding of `u` to `out`.
pub fn encode_varint(out: &mut Vec<u8>, u: u64)
    ensures
        final(out)@ == old(out)@ + varint_bytes(u as nat),
{
    let mut rem = u;
    while rem >= 0x80
        invariant
            old(out)@ + varint_bytes(u as nat) =~= out@ + varint_bytes(rem as nat),
        decreases rem,
    {
        out.push((0x80 + (rem % 0x80)) as u8);
        rem = rem / 0x80;
        assert(old(out)@ + varint_bytes(u as nat) =~= out@ + varint_bytes(rem as nat));
    }
    out.push(rem as u8);
    assert(out@ =~= old(out)@ + varint_bytes(u as nat));
}

/// Masking away the low `7 * k` bits of a 32-bit value leaves zero
/// exactly for the values a `k`-group var-int can carry.
proof fn lemma_i32_masks(x: i32)
    ensures
        ((x & ((-1i32) << 7u32)) == 0) <==> (0 <= x && x < 0x80),
        ((x & ((-1i32) << 14u32)) == 0) <==> (0 <= x && x < 0x4000),
        ((x & ((-1i32) << 21u32)) == 0) <==> (0 <= x && x < 0x20_0000),
        ((x & ((-1i32) << 28u32)) == 0) <==> (0 <= x && x < 0x1000_0000),
{
    assert(((x & ((-1i32) << 7u32)) == 0) <==> (0 <= x && x < 0x80)) by (bit_vector);
    assert(((x & ((-1i32) << 14u32)) == 0) <==> (0 <= x && x < 0x4000)) by (bit_vector);
    assert(((x & ((-1i32) << 21u32)) == 0) <==> (0 <= x && x < 0x20_0000)) by (bit_vector);
    assert(((x & ((-1i32) << 28u32)) == 0) <==> (0 <= x && x < 0x1000_0000)) by (bit_vector);
}

/// Returns the amount of bytes needed to encode this i32 in var-int format.
pub fn get_var_i32_size(input: i32) -> (r: usize)
    ensures
        r as int == var_i32_size(input),
{
    proof {
        lemma_i32_masks(input);
    }
    let mut i: u32 = 1;
    while i < 5
        invariant
            1 <= i <= 5,
            i >= 2 ==> !(0 <= input < 0x80),
            i >= 3 ==> !(0 <= input < 0x4000),
            i >= 4 ==> !(0 <= input < 0x20_0000),
            i >= 5 ==> !(0 <= input < 0x1000_0000),
        decreases 5 - i,
    {
        if (input & ((-1i32) << (i * 7))) == 0 {
            proof {
                lemma_i32_masks(input);
            }
            return i as usize;
        }
        proof {
            lemma_i32_masks(input);
        }
        i = i + 1;
    }
    5
}

/// The 64-bit analogue of `lemma_i32_masks`, one clause per group count.
proof fn lemma_i64_masks(x: i64)
    ensures
        ((x & ((-1i64) << 7u32)) == 0) <==> (0 <= x && x < 0x80),
        ((x & ((-1i64) << 14u32)) == 0) <==> (0 <= x && x < 0x4000),
        ((x & ((-1i64) << 21u32)) == 0) <==> (0 <= x && x < 0x20_0000),
        ((x & ((-1i64) << 28u32)) == 0) <==> (0 <= x && x < 0x1000_0000),
        ((x & ((-1i64) << 35u32)) == 0) <==> (0 <= x && x < 0x8_0000_0000),
        ((x & ((-1i64) << 42u32)) == 0) <==> (0 <= x && x < 0x400_0000_0000),
        ((x & ((-1i64) << 49u32)) == 0) <==> (0 <= x && x < 0x2_0000_0000_0000),
        ((x & ((-1i64) << 56u32)) == 0) <==> (0 <= x && x < 0x100_0000_0000_0000),
        ((x & ((-1i64) << 63u32)) == 0) <==> (0 <= x),
{
    assert(((x & ((-1i64) << 7u32)) == 0) <==> (0 <= x && x < 0x80)) by (bit_vector);
    assert(((x & ((-1i64) << 14u32)) == 0) <==> (0 <= x && x < 0x4000)) by (bit_vector);
    assert(((x & ((-1i64) << 21u32)) == 0) <==> (0 <= x && x < 0x20_0000)) by (bit_vector);
    assert(((x & ((-1i64) << 28u32)) == 0) <==> (0 <= x && x < 0x1000_0000)) by (bit_vector);
    assert(((x & ((-1i64) << 35u32)) == 0) <==> (0 <= x && x < 0x8_0000_0000)) by (bit_vector);
    assert(((x & ((-1i64) << 42u32)) == 0) <==> (0 <= x && x < 0x400_0000_0000)) by (bit_vector);
    assert(((x & ((-1i64) << 49u32)) == 0) <==> (0 <= x && x < 0x2_0000_0000_0000)) by (bit_vector);
    assert(((x & ((-1i64) << 56u32)) == 0) <==> (0 <= x && x < 0x100_0000_0000_0000))
        by (bit_vector);
    assert(((x & ((-1i64) << 63u32)) == 0) <==> (0 <= x)) by (bit_vector);
}

/// Returns the amount of bytes needed to encode this i64 in var-int format.
pub fn get_var_i64_size(input: i64) -> (r: usize)
    ensures
        r as int == var_i64_size(input),
{
    proof {
        lemma_i64_masks(input);
    }
    let mut i: u32 = 1;
    while i < 10
        invariant
            1 <= i <= 10,
            i >= 2 ==> !(0 <= input < 0x80),
            i >= 3 ==> !(0 <= input < 0x4000),
            i >= 4 ==> !(0 <= input < 0x20_0000),
            i >= 5 ==> !(0 <= input < 0x1000_0000),
            i >= 6 ==> !(0 <= input < 0x8_0000_0000),
            i >= 7 ==> !(0 <= input < 0x400_0000_0000),
            i >= 8 ==> !(0 <= input < 0x2_0000_0000_0000),
            i >= 9 ==> !(0 <= input < 0x100_0000_0000_0000),
            i >= 10 ==> !(0 <= input),
        decreases 10 - i,
    {
        if (input & ((-1i64) << (i * 7))) == 0 {
            proof {
                lemma_i64_masks(input);
            }
            return i as usize;
        }
        proof {
            lemma_i64_masks(input);
        }
        i = i + 1;
    }
    10
}

} // verus!
