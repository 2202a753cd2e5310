//! Variable-length integer coding: seven value bits per byte, least
//! significant group first, the high bit of each byte marking continuation.
//! Signed values use the two's-complement variant, where the second-highest
//! bit of the final byte is the sign.

use vstd::arithmetic::power2::{
    lemma2_to64, lemma2_to64_rest, lemma_pow2_adds, lemma_pow2_strictly_increases, pow2,
};
use vstd::prelude::*;

verus! {

/// How decoding can fail.
#[derive(Debug, Clone, Copy, PartialEq, Eq, Structural)]
pub enum Error {
    /// The data ended on a byte whose continuation bit was set.
    EndOfData,
    /// More groups arrived than 128 bits can hold.
    DataTooBig,
}

pub type Result<T> = core::result::Result<T, Error>;

/// The canonical unsigned encoding: the low seven bits, then, while
/// anything remains, the rest with the continuation bit on each byte.
pub open spec fn uleb(v: nat) -> Seq<u8>
    decreases v,
{
    if v < 128 {
        seq![v as u8]
    } else {
        seq![(v % 128 + 128) as u8] + uleb(v / 128)
    }
}

/// The canonical signed encoding: groups of seven bits of the
/// two's-complement value, ending as soon as the remaining bits all equal
/// the emitted sign bit.
pub open spec fn sleb(v: int) -> Seq<u8>
    decreases (if v >= 0 {
        v
    } else {
        -1 - v
    }),
{
    let b = v % 128;
    let rest = v / 128;
    if (rest == 0 && b < 64) || (rest == -1 && b >= 64) {
        seq![b as u8]
    } else {
        seq![(b + 128) as u8] + sleb(rest)
    }
}

/// The power of two that a group shift selects, as a 128-bit word.
pub open spec fn pow2_128(n: nat) -> u128 {
    if n < 128 {
        pow2(n) as u128
    } else {
        0
    }
}

/// An accumulator with one more byte's seven value bits merged in at the
/// given shift; bits pushed beyond the 128th are discarded, as the machine
/// word discards them.
pub open spec fn add_scaled(acc: u128, b: u8, shift: nat) -> u128 {
    vstd::wrapping::u128_specs::wrapping_add(
        acc,
        vstd::wrapping::u128_specs::wrapping_mul(((b % 128) as u128), pow2_128(shift)),
    )
}

/// What decoding yields from byte `k` on, with `shift` bits already
/// consumed into `acc`: the exact result, `Ok` or either error, for every
/// input.
pub open spec fn spec_decode_from(s: Seq<u8>, k: int, shift: nat, acc: u128) -> Result<u128>
    decreases s.len() - k,
{
    if k < 0 || k >= s.len() {
        Err(Error::EndOfData)
    } else {
        let b = s[k];
        let acc2 = add_scaled(acc, b, shift);
        if b < 128 {
            Ok(acc2)
        } else if shift + 7 >= 128 {
            Err(Error::DataTooBig)
        } else {
            spec_decode_from(s, k + 1, shift + 7, acc2)
        }
    }
}

/// What decoding an unsigned value from the whole input yields.
pub open spec fn spec_decode(s: Seq<u8>) -> Result<u128> {
    spec_decode_from(s, 0, 0, 0)
}

/// The two's-complement reading of a finished accumulator: when the final
/// byte's sign bit is set and the value bits did not already fill the word,
/// the bits above them are filled with ones.
pub open spec fn finish_signed(acc: u128, shift: nat, b: u8) -> i128 {
    if shift < 128 && b % 128 >= 64 {
        vstd::wrapping::u128_specs::wrapping_add(
            acc,
            (0x100000000000000000000000000000000 - pow2(shift)) as u128,
        ) as i128
    } else {
        acc as i128
    }
}

/// What decoding a signed value from byte `k` on yields.
pub open spec fn spec_decode_signed_from(s: Seq<u8>, k: int, shift: nat, acc: u128) -> Result<
    i128,
>
    decreases s.len() - k,
{
    if k < 0 || k >= s.len() {
        Err(Error::EndOfData)
    } else {
        let b = s[k];
        let acc2 = add_scaled(acc, b, shift);
        if b < 128 {
            Ok(finish_signed(acc2, shift + 7, b))
        } else if shift + 7 >= 128 {
            Err(Error::DataTooBig)
        } else {
            spec_decode_signed_from(s, k + 1, shift + 7, acc2)
        }
    }
}

/// What decoding a signed value from the whole input yields.
pub open spec fn spec_decode_signed(s: Seq<u8>) -> Result<i128> {
    spec_decode_signed_from(s, 0, 0, 0)
}

/// Appends the canonical unsigned encoding of `value` to `output`.
pub fn encode(value: u128, output: &mut Vec<u8>)
    ensures
        final(output)@ == old(output)@ + uleb(value as nat),
{
    let mut v = value;
    while v >= 128
        invariant
            old(output)@.len() <= output@.len(),
            output@.subrange(0, old(output)@.len() as int) == old(output)@,
            uleb(value as nat) == output@.subrange(old(output)@.len() as int, output@.len() as int)
                + uleb(v as nat),
        decreases v,
    {
        let ghost pre = output@;
        output.push((v % 128 + 128) as u8);
        proof {
            assert(uleb(v as nat) == seq![(v as nat % 128 + 128) as u8] + uleb(v as nat / 128));
            assert(output@.subrange(0, old(output)@.len() as int) =~= old(output)@);
            assert(output@.subrange(old(output)@.len() as int, output@.len() as int) =~= pre.subrange(
                old(output)@.len() as int,
                pre.len() as int,
            ) + seq![(v as nat % 128 + 128) as u8]);
        }
        v = v / 128;
    }
    output.push(v as u8);
    proof {
        assert(uleb(v as nat) == seq![v as u8]);
        assert(final(output)@ =~= old(output)@ + uleb(value as nat));
    }
}

/// Decodes an unsigned value from the front of `data`, exactly as
/// `spec_decode` says: `Ok` for a terminated encoding of up to 128 bits,
/// `EndOfData` when the bytes run out first, `DataTooBig` when a
/// nineteenth group still carries a continuation bit.
pub fn decode(data: &[u8]) -> (r: Result<u128>)
    ensures
        r == spec_decode(data@),
{
    let n = data.len();
    if n == 0 {
        return Err(Error::EndOfData);
    }
    let mut k: usize = 0;
    let mut shift: u32 = 0;
    let mut res: u128 = 0;
    let mut mult: u128 = 1;
    proof {
        lemma2_to64();
    }
    loop
        invariant
            n == data@.len(),
            0 < n,
            k < n,
            shift % 7 == 0,
            shift <= 126,
            mult == pow2_128(shift as nat),
            spec_decode(data@) == spec_decode_from(data@, k as int, shift as nat, res),
        decreases n - k,
    {
        proof {
            lemma_pow2_strictly_increases(shift as nat, 128);
            lemma2_to64();
            lemma_pow2_adds(64, 64);
        }
        let byte = data[k];
        let low = (byte % 128) as u128;
        res = res.wrapping_add(low.wrapping_mul(mult));
        if byte < 128 {
            return Ok(res);
        }
        if shift >= 121 {
            return Err(Error::DataTooBig);
        }
        proof {
            lemma_pow2_adds(shift as nat, 7);
            lemma_pow2_strictly_increases((shift + 7) as nat, 128);
        }
        shift = shift + 7;
        mult = mult * 128;
        k = k + 1;
        if k >= n {
            return Err(Error::EndOfData);
        }
    }
}

/// Appends the canonical signed encoding of `value` to `output`.
pub fn encode_signed(value: i128, output: &mut Vec<u8>)
    ensures
        final(output)@ == old(output)@ + sleb(value as int),
{
    let mut v = value;
    let mut done = false;
    while !done
        invariant
            old(output)@.len() <= output@.len(),
            output@.subrange(0, old(output)@.len() as int) == old(output)@,
            !done ==> sleb(value as int) == output@.subrange(
                old(output)@.len() as int,
                output@.len() as int,
            ) + sleb(v as int),
            done ==> output@.subrange(old(output)@.len() as int, output@.len() as int) == sleb(
                value as int,
            ),
        decreases (if v >= 0 {
            v as int
        } else {
            -1 - v
        }), (if done {
            0int
        } else {
            1int
        }),
    {
        let b8: u8;
        let rest: i128;
        if v >= 0 {
            let vv = v as u128;
            b8 = (vv % 128) as u8;
            rest = (vv / 128) as i128;
            proof {
                assert(b8 as int == v as int % 128);
                assert(rest as int == v as int / 128);
            }
        } else {
            let m = ((-(v + 1)) as u128) + 1;
            proof {
                assert(m == -(v as int));
                vstd::arithmetic::div_mod::lemma_fundamental_div_mod((m + 127) as int, 128);
            }
            let q_mag = (m + 127) / 128;
            let prod = 128 * q_mag;
            b8 = (prod - m) as u8;
            rest = -(q_mag as i128);
            proof {
                vstd::arithmetic::div_mod::lemma_fundamental_div_mod_converse(
                    v as int,
                    128,
                    rest as int,
                    b8 as int,
                );
                assert(b8 as int == v as int % 128);
                assert(rest as int == v as int / 128);
            }
        }
        let ghost pre = output@;
        if (rest == 0 && b8 < 64) || (rest == -1 && b8 >= 64) {
            output.push(b8);
            done = true;
            proof {
                assert(sleb(v as int) == seq![(v as int % 128) as u8]);
                assert(output@.subrange(0, old(output)@.len() as int) =~= old(output)@);
                assert(output@.subrange(old(output)@.len() as int, output@.len() as int)
                    =~= pre.subrange(old(output)@.len() as int, pre.len() as int) + seq![b8]);
            }
        } else {
            output.push(b8 + 128);
            proof {
                assert(sleb(v as int) == seq![(v as int % 128 + 128) as u8] + sleb(v as int / 128));
                assert(output@.subrange(0, old(output)@.len() as int) =~= old(output)@);
                assert(output@.subrange(old(output)@.len() as int, output@.len() as int)
                    =~= pre.subrange(old(output)@.len() as int, pre.len() as int) + seq![
                    (b8 + 128) as u8,
                ]);
            }
            v = rest;
        }
    }
    proof {
        assert(final(output)@ =~= old(output)@ + sleb(value as int));
    }
}

/// Decodes a signed value from the front of `data`, exactly as
/// `spec_decode_signed` says.
pub fn decode_signed(data: &[u8]) -> (r: Result<i128>)
    ensures
        r == spec_decode_signed(data@),
{
    let n = data.len();
    if n == 0 {
        return Err(Error::EndOfData);
    }
    let mut k: usize = 0;
    let mut shift: u32 = 0;
    let mut res: u128 = 0;
    let mut mult: u128 = 1;
    proof {
        lemma2_to64();
    }
    loop
        invariant
            n == data@.len(),
            0 < n,
            k < n,
            shift % 7 == 0,
            shift <= 126,
            mult == pow2_128(shift as nat),
            res < mult,
            spec_decode_signed(data@) == spec_decode_signed_from(
                data@,
                k as int,
                shift as nat,
                res,
            ),
        decreases n - k,
    {
        proof {
            lemma_pow2_strictly_increases(shift as nat, 128);
            lemma2_to64();
            lemma_pow2_adds(64, 64);
        }
        let byte = data[k];
        let low = (byte % 128) as u128;
        if shift <= 119 {
            proof {
                lemma_pow2_adds(shift as nat, 7);
                lemma_pow2_strictly_increases((shift + 7) as nat, 128);
                assert(pow2(128) == 0x100000000000000000000000000000000) by {
                    lemma_pow2_adds(64, 64);
                    lemma2_to64();
                }
                assert(mult * 128 == pow2((shift + 7) as nat));
                assert(low * mult <= 127 * mult) by (nonlinear_arith)
                    requires
                        low <= 127,
                        mult >= 0,
                ;
            }
            let mult2 = mult * 128;
            let ghost acc0 = res;
            res = res + low * mult;
            proof {
                assert(vstd::wrapping::u128_specs::wrapping_mul(low, pow2_128(shift as nat))
                    == low * mult);
                assert(res == add_scaled(acc0, byte, shift as nat));
                assert(res < mult2);
            }
            if byte < 128 {
                if byte >= 64 {
                    let mask = (u128::MAX - mult2) + 1;
                    let extended = res + mask;
                    proof {
                        assert(extended == vstd::wrapping::u128_specs::wrapping_add(
                            res,
                            (0x100000000000000000000000000000000 - pow2((shift + 7) as nat)) as u128,
                        ));
                        assert(Ok::<i128, Error>(extended as i128) == spec_decode_signed_from(
                            data@,
                            k as int,
                            shift as nat,
                            acc0,
                        ));
                    }
                    return Ok(extended as i128);
                }
                return Ok(res as i128);
            }
            shift = shift + 7;
            mult = mult2;
            k = k + 1;
            if k >= n {
                return Err(Error::EndOfData);
            }
        } else {
            res = res.wrapping_add(low.wrapping_mul(mult));
            if byte < 128 {
                return Ok(res as i128);
            }
            return Err(Error::DataTooBig);
        }
    }
}


/// Decoding inverts encoding, byte for byte: a decode that starts where a
/// canonical encoding of `v` begins yields exactly the accumulator with `v`
/// merged in at the current shift.
proof fn lemma_uleb_decode_from(s: Seq<u8>, v: nat, k: int, shift: nat, acc: u128)
    requires
        0 <= k <= s.len(),
        s.subrange(k, s.len() as int) == uleb(v),
        shift % 7 == 0,
        shift <= 126,
        acc < pow2_128(shift),
        v < pow2((128 - shift) as nat),
    ensures
        spec_decode_from(s, k, shift, acc) == Ok::<u128, Error>(
            (acc + v * pow2(shift)) as u128,
        ),
    decreases v,
{
    lemma2_to64();
    lemma_pow2_adds(64, 64);
    lemma_pow2_adds(shift, (128 - shift) as nat);
    lemma_pow2_strictly_increases(shift, 128);
    assert(pow2(128) == 0x100000000000000000000000000000000);
    assert(pow2_128(shift) == pow2(shift));
    assert(k < s.len()) by {
        assert(uleb(v).len() >= 1);
    }
    let b = s[k];
    assert(b == uleb(v)[0]);
    assert(acc + v * pow2(shift) < pow2(128)) by (nonlinear_arith)
        requires
            acc < pow2(shift),
            v < pow2((128 - shift) as nat),
            pow2(shift) * pow2((128 - shift) as nat) == pow2(128),
            pow2(shift) >= 1,
    ;
    if v < 128 {
        assert(uleb(v) == seq![v as u8]);
        assert(b == v as u8);
        assert(add_scaled(acc, b, shift) == (acc + v * pow2(shift)) as u128) by {
            assert((b % 128) as u128 == v);
            assert(vstd::wrapping::u128_specs::wrapping_mul(
                (b % 128) as u128,
                pow2_128(shift),
            ) == (v * pow2(shift)) as u128) by (nonlinear_arith)
                requires
                    (b % 128) as u128 == v,
                    pow2_128(shift) == pow2(shift),
                    v * pow2(shift) < pow2(128),
                    pow2(128) == 0x100000000000000000000000000000000,
            ;
        }
    } else {
        assert(uleb(v) == seq![(v % 128 + 128) as u8] + uleb(v / 128));
        assert(b == (v % 128 + 128) as u8);
        assert(b >= 128);
        assert(pow2((128 - shift) as nat) > 128) by {
            if (128 - shift) as nat <= 7 {
                lemma_pow2_strictly_increases((128 - shift) as nat, 8);
                assert(v < pow2((128 - shift) as nat));
            }
        }
        assert(shift < 121) by {
            if shift >= 121 {
                assert((128 - shift) as nat <= 7);
                lemma_pow2_strictly_increases((128 - shift) as nat, 8);
            }
        }
        lemma_pow2_adds(shift, 7);
        let acc2_target = (acc + (v % 128) * pow2(shift)) as u128;
        assert(acc + (v % 128) * pow2(shift) < pow2((shift + 7) as nat)) by (nonlinear_arith)
            requires
                acc < pow2(shift),
                v % 128 < 128,
                pow2((shift + 7) as nat) == pow2(shift) * 128,
                pow2(shift) >= 1,
        ;
        lemma_pow2_strictly_increases((shift + 7) as nat, 128);
        assert(add_scaled(acc, b, shift) == acc2_target) by {
            assert((b % 128) as nat == v % 128);
            assert(vstd::wrapping::u128_specs::wrapping_mul(
                (b % 128) as u128,
                pow2_128(shift),
            ) == ((v % 128) * pow2(shift)) as u128) by (nonlinear_arith)
                requires
                    (b % 128) as nat == v % 128,
                    pow2_128(shift) == pow2(shift),
                    (v % 128) * pow2(shift) < pow2(128),
                    pow2(128) == 0x100000000000000000000000000000000,
            ;
        }
        assert(s.subrange(k + 1, s.len() as int) =~= uleb(v / 128)) by {
            assert forall|i: int|
                0 <= i < s.len() - (k + 1) implies #[trigger] s.subrange(k + 1, s.len() as int)[i]
                == uleb(v / 128)[i] by {
                assert(s.subrange(k, s.len() as int)[i + 1] == uleb(v)[i + 1]);
                assert(uleb(v)[i + 1] == uleb(v / 128)[i]);
            };
        }
        assert(pow2((128 - shift) as nat) == pow2((128 - (shift + 7)) as nat) * pow2(7)) by {
            lemma_pow2_adds((128 - (shift + 7)) as nat, 7);
        }
        assert(v / 128 < pow2((128 - (shift + 7)) as nat)) by (nonlinear_arith)
            requires
                v < pow2((128 - shift) as nat),
                pow2((128 - shift) as nat) == pow2((128 - (shift + 7)) as nat) * 128,
                pow2((128 - (shift + 7)) as nat) >= 1,
        ;
        lemma_uleb_decode_from(s, v / 128, k + 1, (shift + 7) as nat, acc2_target);
        assert(acc2_target + (v / 128) * pow2((shift + 7) as nat) == acc + v * pow2(shift))
            by (nonlinear_arith)
            requires
                acc2_target == acc + (v % 128) * pow2(shift),
                pow2((shift + 7) as nat) == pow2(shift) * 128,
                v % 128 + (v / 128) * 128 == v,
        ;
    }
}

/// The round trip: decoding a canonical unsigned encoding gives the value
/// back, whatever follows is never read, and the bytes are what `encode`
/// appends.
pub proof fn lemma_uleb_roundtrip(v: u128)
    ensures
        spec_decode(uleb(v as nat)) == Ok::<u128, Error>(v),
{
    lemma2_to64();
    lemma_pow2_adds(64, 64);
    assert(uleb(v as nat).subrange(0, uleb(v as nat).len() as int) =~= uleb(v as nat));
    lemma_uleb_decode_from(uleb(v as nat), v as nat, 0, 0, 0);
}



proof fn lemma_pow2_value_facts()
    ensures
        pow2(127) == 0x80000000000000000000000000000000,
        pow2(128) == 0x100000000000000000000000000000000,
{
    lemma2_to64();
    lemma2_to64_rest();
    lemma_pow2_adds(64, 64);
    lemma_pow2_adds(63, 64);
    assert(pow2(127) == 0x80000000000000000000000000000000) by (nonlinear_arith)
        requires
            pow2(127) == pow2(63) * pow2(64),
            pow2(63) == 0x8000000000000000,
            pow2(64) == 0x10000000000000000,
    ;
    assert(pow2(128) == 0x100000000000000000000000000000000) by (nonlinear_arith)
        requires
            pow2(128) == pow2(64) * pow2(64),
            pow2(64) == 0x10000000000000000,
    ;
}

/// The two's-complement reading of a high 128-bit word: reinterpreting a
/// word at or above the sign threshold as signed subtracts one full word.
proof fn lemma_u128_high_cast(x: u128)
    requires
        x >= 0x80000000000000000000000000000000,
    ensures
        x as i128 == x - 0x100000000000000000000000000000000,
{
    assert(x as i128 == ((x - 0x80000000000000000000000000000000u128) as i128)
        - 0x40000000000000000000000000000000i128 - 0x40000000000000000000000000000000i128)
        by (bit_vector)
        requires
            x >= 0x80000000000000000000000000000000u128,
    ;
}

/// Decoding inverts the signed encoding: a decode that starts where a
/// canonical signed encoding of `v` begins yields the two's-complement
/// reading of the accumulator with `v` merged in at the current shift.
proof fn lemma_sleb_decode_from(s: Seq<u8>, v: int, k: int, shift: nat, acc: u128)
    requires
        0 <= k <= s.len(),
        s.subrange(k, s.len() as int) == sleb(v),
        shift % 7 == 0,
        shift <= 126,
        acc < pow2_128(shift),
        -pow2((127 - shift) as nat) <= v < pow2((127 - shift) as nat),
    ensures
        spec_decode_signed_from(s, k, shift, acc) == Ok::<i128, Error>(
            (acc + v * pow2(shift)) as i128,
        ),
    decreases (if v >= 0 {
        v
    } else {
        -1 - v
    }),
{
    lemma2_to64();
    lemma_pow2_adds(64, 64);
    lemma_pow2_adds(shift, (127 - shift) as nat);
    lemma_pow2_strictly_increases(shift, 127);
    lemma_pow2_strictly_increases(shift, 128);
    lemma_pow2_adds(shift, 7);
    lemma_pow2_value_facts();
    assert(pow2_128(shift) == pow2(shift));
    assert(k < s.len()) by {
        assert(sleb(v).len() >= 1);
    }
    let b = s[k];
    assert(b == sleb(v)[0]);
    let bb = v % 128;
    let rest = v / 128;
    assert(-pow2(127) <= acc + v * pow2(shift) < pow2(127)) by (nonlinear_arith)
        requires
            0 <= acc < pow2(shift),
            -pow2((127 - shift) as nat) <= v < pow2((127 - shift) as nat),
            pow2(shift) * pow2((127 - shift) as nat) == pow2(127),
            pow2(shift) >= 1,
    ;
    if (rest == 0 && bb < 64) || (rest == -1 && bb >= 64) {
        assert(sleb(v) == seq![bb as u8]);
        assert(b == bb as u8);
        assert(b < 128);
        assert(v == 128 * rest + bb);
        let acc2 = add_scaled(acc, b, shift);
        assert((b % 128) as int == bb);
        assert(acc2 == (acc + bb * pow2(shift)) % (pow2(128) as int)) by (nonlinear_arith)
            requires
                acc2 == vstd::wrapping::u128_specs::wrapping_add(
                    acc,
                    vstd::wrapping::u128_specs::wrapping_mul((bb as u128), (pow2(shift) as u128)),
                ),
                0 <= bb < 128,
                0 <= acc < pow2(shift),
                pow2(shift) < pow2(128),
                pow2(128) == 0x100000000000000000000000000000000,
        ;
        let x = acc + v * pow2(shift);
        if rest == 0 {
            assert(bb == v);
            assert(b % 128 < 64);
            assert(spec_decode_signed_from(s, k, shift, acc) == Ok::<i128, Error>(acc2 as i128));
            assert(acc2 == x) by (nonlinear_arith)
                requires
                    acc2 == (acc + bb * pow2(shift)) % (pow2(128) as int),
                    bb == v,
                    x == acc + v * pow2(shift),
                    0 <= x < pow2(127),
                    pow2(128) == 2 * pow2(127),
            ;
            assert(acc2 as i128 == x);
        } else {
            assert(bb == v + 128);
            assert(b % 128 >= 64);
            assert(-pow2(127) <= x < 0) by (nonlinear_arith)
                requires
                    x == acc + v * pow2(shift),
                    0 <= acc < pow2(shift),
                    v < 0,
                    -pow2(127) <= x,
                    pow2(shift) >= 1,
            ;
            if shift + 7 < 128 {
                lemma_pow2_strictly_increases((shift + 7) as nat, 128);
                assert(acc2 == x + pow2((shift + 7) as nat)) by (nonlinear_arith)
                    requires
                        acc2 == (acc + bb * pow2(shift)) % (pow2(128) as int),
                        bb == v + 128,
                        x == acc + v * pow2(shift),
                        -pow2(127) <= x < 0,
                        0 <= acc < pow2(shift),
                        -128 <= v < 0,
                        pow2((shift + 7) as nat) == pow2(shift) * 128,
                        pow2((shift + 7) as nat) < pow2(128),
                        pow2(128) == 2 * pow2(127),
                ;
                let mask = (0x100000000000000000000000000000000 - pow2(
                    (shift + 7) as nat,
                )) as u128;
                let ext = vstd::wrapping::u128_specs::wrapping_add(acc2, mask);
                assert(ext == x + pow2(128)) by (nonlinear_arith)
                    requires
                        ext == vstd::wrapping::u128_specs::wrapping_add(acc2, mask),
                        acc2 == x + pow2((shift + 7) as nat),
                        mask == pow2(128) - pow2((shift + 7) as nat),
                        -pow2(127) <= x < 0,
                        pow2((shift + 7) as nat) < pow2(128),
                        pow2(128) == 0x100000000000000000000000000000000,
                ;
                assert(ext >= pow2(127));
                lemma_u128_high_cast(ext);
                assert(ext as i128 == x);
                assert(spec_decode_signed_from(s, k, shift, acc) == Ok::<i128, Error>(
                    ext as i128,
                ));
            } else {
                assert(shift == 126);
                assert(pow2((127 - shift) as nat) == 2);
                assert(-2 <= v <= -1);
                assert(pow2(128) == 4 * pow2(126) && pow2(127) == 2 * pow2(126)) by {
                    lemma_pow2_adds(126, 2);
                    lemma_pow2_adds(126, 1);
                    lemma2_to64();
                }
                assert(acc2 == x + pow2(128)) by (nonlinear_arith)
                    requires
                        acc2 == (acc + bb * pow2(shift)) % (pow2(128) as int),
                        bb == v + 128,
                        x == acc + v * pow2(shift),
                        -pow2(127) <= x < 0,
                        0 <= acc < pow2(shift),
                        -2 <= v <= -1,
                        shift == 126,
                        pow2(128) == 4 * pow2(126),
                        pow2(127) == 2 * pow2(126),
                        pow2(128) == 0x100000000000000000000000000000000,
                ;
                assert(acc2 >= pow2(127));
                lemma_u128_high_cast(acc2);
                assert(acc2 as i128 == x);
                assert(spec_decode_signed_from(s, k, shift, acc) == Ok::<i128, Error>(
                    acc2 as i128,
                ));
            }
        }
    } else {
        assert(sleb(v) == seq![(bb + 128) as u8] + sleb(rest));
        assert(b == (bb + 128) as u8);
        assert(b >= 128);
        assert(v == 128 * rest + bb);
        // A continuing byte means at least one more seven-bit group is
        // needed, so the remaining range is wide and the shift small.
        assert(v >= 64 || v <= -65);
        assert(shift < 121) by {
            if shift >= 121 {
                assert((127 - shift) as nat <= 6);
                lemma_pow2_strictly_increases((127 - shift) as nat, 7);
                assert(pow2((127 - shift) as nat) <= 64);
            }
        }
        lemma_pow2_strictly_increases((shift + 7) as nat, 128);
        let acc2 = add_scaled(acc, b, shift);
        assert((b % 128) as int == bb);
        assert(acc2 == acc + bb * pow2(shift) && acc2 < pow2((shift + 7) as nat))
            by (nonlinear_arith)
            requires
                acc2 == vstd::wrapping::u128_specs::wrapping_add(
                    acc,
                    vstd::wrapping::u128_specs::wrapping_mul(
                        (bb as u128),
                        (pow2(shift) as u128),
                    ),
                ),
                0 <= bb < 128,
                0 <= acc < pow2(shift),
                pow2((shift + 7) as nat) == pow2(shift) * 128,
                pow2((shift + 7) as nat) < pow2(128),
                pow2(128) == 0x100000000000000000000000000000000,
                pow2(shift) >= 1,
        ;
        assert(s.subrange(k + 1, s.len() as int) =~= sleb(rest)) by {
            assert forall|i: int|
                0 <= i < s.len() - (k + 1) implies #[trigger] s.subrange(k + 1, s.len() as int)[i]
                == sleb(rest)[i] by {
                assert(s.subrange(k, s.len() as int)[i + 1] == sleb(v)[i + 1]);
                assert(seq![(bb + 128) as u8].len() == 1);
                assert((seq![(bb + 128) as u8] + sleb(rest))[i + 1] == sleb(rest)[i]);
                assert(sleb(v)[i + 1] == sleb(rest)[i]);
            };
        }
        assert(pow2((127 - shift) as nat) == pow2((127 - (shift + 7)) as nat) * pow2(7)) by {
            lemma_pow2_adds((127 - (shift + 7)) as nat, 7);
        }
        assert(-pow2((127 - (shift + 7)) as nat) <= rest < pow2((127 - (shift + 7)) as nat))
            by (nonlinear_arith)
            requires
                v == 128 * rest + bb,
                0 <= bb < 128,
                -pow2((127 - shift) as nat) <= v < pow2((127 - shift) as nat),
                pow2((127 - shift) as nat) == pow2((127 - (shift + 7)) as nat) * 128,
                pow2((127 - (shift + 7)) as nat) >= 1,
        ;
        lemma_sleb_decode_from(s, rest, k + 1, (shift + 7) as nat, acc2);
        assert(acc2 + rest * pow2((shift + 7) as nat) == acc + v * pow2(shift))
            by (nonlinear_arith)
            requires
                acc2 == acc + bb * pow2(shift),
                pow2((shift + 7) as nat) == pow2(shift) * 128,
                v == 128 * rest + bb,
        ;
    }
}

/// The signed round trip: decoding a canonical signed encoding gives the
/// value back.
pub proof fn lemma_sleb_roundtrip(v: i128)
    ensures
        spec_decode_signed(sleb(v as int)) == Ok::<i128, Error>(v),
{
    lemma2_to64();
    lemma_pow2_value_facts();
    assert(sleb(v as int).subrange(0, sleb(v as int).len() as int) =~= sleb(v as int));
    lemma_sleb_decode_from(sleb(v as int), v as int, 0, 0, 0);
}

} // verus!
