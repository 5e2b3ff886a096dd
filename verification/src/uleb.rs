use vstd::prelude::*;
use vstd::arithmetic::power2::{pow2, lemma_pow2_adds, lemma2_to64, lemma2_to64_rest};
use vstd::arithmetic::div_mod::lemma_fundamental_div_mod;
use crate::error::Error;
use crate::source::Source;

verus! {

/// Outcome of decoding one unsigned variable-length integer.
///
/// Each byte contributes its low seven bits, least-significant group first;
/// a set high bit means another byte follows. The target width is 64 bits:
/// a tenth byte may only be 0 or 1, and bits beyond that are an overflow.
pub enum UlebOut {
    /// A terminated chunk: its value and the number of bytes it spans.
    Value { value: nat, size: nat },
    /// The buffer ended before a terminating byte.
    Short,
    /// The encoding carries more bits than the 64-bit target width holds.
    Overflow,
}

/// Decode state after `k` bytes have already been consumed: the value of the
/// remaining groups (unscaled) and the total byte count from the chunk start.
pub open spec fn uleb_from(s: Seq<u8>, pos: int, k: nat) -> UlebOut
    decreases 10 - k,
{
    if k >= 10 {
        UlebOut::Overflow
    } else if pos < 0 || pos >= s.len() {
        UlebOut::Short
    } else {
        let b = s[pos];
        if k == 9 && b > 1 {
            UlebOut::Overflow
        } else if b < 128 {
            UlebOut::Value { value: b as nat, size: (k + 1) as nat }
        } else {
            match uleb_from(s, pos + 1, (k + 1) as nat) {
                UlebOut::Value { value, size } => UlebOut::Value {
                    value: (b - 128) as nat + 128 * value,
                    size,
                },
                out => out,
            }
        }
    }
}

/// Decode of the unsigned variable-length integer starting at `pos`.
pub open spec fn uleb(s: Seq<u8>, pos: int) -> UlebOut {
    uleb_from(s, pos, 0)
}

/// A decoded value occupies fewer bits than remain of the 64-bit width, its
/// chunk spans at most ten bytes, and the chunk lies inside the buffer.
pub proof fn lemma_uleb_from_facts(s: Seq<u8>, pos: int, k: nat)
    requires
        k <= 9,
    ensures
        uleb_from(s, pos, k) matches UlebOut::Value { value, size } ==> {
            &&& value < pow2((64 - 7 * k) as nat)
            &&& k < size <= 10
            &&& pos + (size - k) <= s.len()
        },
    decreases 10 - k,
{
    lemma2_to64();
    lemma2_to64_rest();
    if uleb_from(s, pos, k) matches UlebOut::Value { value, size } {
        let b = s[pos];
        if b < 128 {
            if k < 9 {
                lemma_pow2_adds(7, (57 - 7 * k) as nat);
                vstd::arithmetic::power2::lemma_pow2_pos((57 - 7 * k) as nat);
                assert(pow2(7) * pow2((57 - 7 * k) as nat) >= 128) by (nonlinear_arith)
                    requires
                        pow2(7) == 128,
                        pow2((57 - 7 * k) as nat) >= 1,
                ;
            }
        } else {
            lemma_uleb_from_facts(s, pos + 1, (k + 1) as nat);
            let inner = uleb_from(s, pos + 1, (k + 1) as nat);
            match inner {
                UlebOut::Value { value: v2, size: _ } => {
                    lemma_pow2_adds(7, (57 - 7 * k) as nat);
                    assert((b - 128) as nat + 128 * v2 < pow2(7) * pow2((57 - 7 * k) as nat))
                        by (nonlinear_arith)
                        requires
                            pow2(7) == 128,
                            v2 < pow2((57 - 7 * k) as nat),
                            128 <= b < 256,
                    ;
                },
                _ => {},
            }
        }
    }
}

/// Read one unsigned variable-length integer at `offset`: the single
/// encoding used for every count, delta, flag and offset field in the
/// encoded arrays.
pub fn read_uleb128(source: &Source, offset: usize) -> (r: Result<(u64, usize), Error>)
    ensures
        match uleb(source@, offset as int) {
            UlebOut::Value { value, size } => r == Ok::<(u64, usize), Error>(
                (value as u64, size as usize),
            ),
            UlebOut::Short => r == Err::<(u64, usize), Error>(Error::OutOfBounds),
            UlebOut::Overflow => r == Err::<(u64, usize), Error>(Error::MalformedUleb),
        },
{
    let ghost s = source@;
    let n = source.len();
    let mut value: u64 = 0;
    let mut place: u64 = 1;
    let mut i: usize = 0;
    proof {
        lemma2_to64();
    }
    loop
        invariant
            0 <= i <= 9,
            i > 0 ==> offset + i <= s.len(),
            s == source@,
            n == s.len(),
            place == pow2((7 * i) as nat),
            value < place,
            match uleb_from(s, offset + i, i as nat) {
                UlebOut::Value { value: rest, size } => uleb(s, offset as int) == (UlebOut::Value {
                    value: (value + place * rest) as nat,
                    size,
                }),
                out => uleb(s, offset as int) == out,
            },
        decreases 10 - i,
    {
        proof {
            lemma2_to64();
            lemma2_to64_rest();
        }
        let b = match source.get(offset + i) {
            Some(b) => b,
            None => {
                return Err(Error::OutOfBounds);
            },
        };
        if i == 9 && b > 1 {
            return Err(Error::MalformedUleb);
        }
        let low: u64 = (b % 128) as u64;
        proof {
            lemma_pow2_adds((7 * i) as nat, 7);
            assert((7 * i) as nat + 7 == (7 * (i + 1)) as nat);
            assert(value + low * place < pow2((7 * (i + 1)) as nat)) by (nonlinear_arith)
                requires
                    value < place,
                    low < 128,
                    place == pow2((7 * i) as nat),
                    pow2(7) == 128,
                    pow2((7 * (i + 1)) as nat) == pow2((7 * i) as nat) * pow2(7),
            ;
            if i == 9 {
                assert(value + low * place <= 0xffff_ffff_ffff_ffff) by (nonlinear_arith)
                    requires
                        value < place,
                        low <= 1,
                        place == pow2(63),
                        pow2(63) == 0x8000_0000_0000_0000,
                ;
            } else {
                assert(pow2((7 * (i + 1)) as nat) <= pow2(63)) by {
                    lemma_pow2_adds((7 * (i + 1)) as nat, (63 - 7 * (i + 1)) as nat);
                    vstd::arithmetic::power2::lemma_pow2_pos((63 - 7 * (i + 1)) as nat);
                    assert(pow2((7 * (i + 1)) as nat) * pow2((63 - 7 * (i + 1)) as nat) >= pow2(
                        (7 * (i + 1)) as nat,
                    ) * 1) by (nonlinear_arith)
                        requires
                            pow2((63 - 7 * (i + 1)) as nat) >= 1,
                    ;
                }
                assert(value + low * place < 0x8000_0000_0000_0000);
                assert(place * 128 == pow2((7 * (i + 1)) as nat)) by (nonlinear_arith)
                    requires
                        place == pow2((7 * i) as nat),
                        pow2(7) == 128,
                        pow2((7 * (i + 1)) as nat) == pow2((7 * i) as nat) * pow2(7),
                ;
            }
            assert(value + low * place <= 0xffff_ffff_ffff_ffff);
        }
        let new_value: u64 = value + low * place;
        if b < 128 {
            proof {
                assert(uleb_from(s, offset + i, i as nat) == (UlebOut::Value {
                    value: b as nat,
                    size: (i + 1) as nat,
                }));
                assert(value + place * (b as nat) == value + low * place) by (nonlinear_arith)
                    requires
                        low == b,
                ;
            }
            return Ok((new_value, i + 1));
        }
        // A continuation byte at the tenth position was rejected above, so
        // at most nine groups precede the one about to be read.
        proof {
            lemma_pow2_adds((7 * i) as nat, 7);
            let rest_out = uleb_from(s, offset + i + 1, (i + 1) as nat);
            match rest_out {
                UlebOut::Value { value: rest2, size } => {
                    assert(value + place * ((b - 128) as nat + 128 * rest2) == new_value + (place
                        * 128) * rest2) by (nonlinear_arith)
                        requires
                            new_value == value + (b - 128) * place,
                            b >= 128,
                    ;
                },
                _ => {},
            }
        }
        value = new_value;
        place = place * 128;
        i = i + 1;
    }
}

/// The byte sequence that encodes `v`: low seven bits per byte, high bit set
/// on every byte but the last.
pub open spec fn uleb_encode(v: nat) -> Seq<u8>
    decreases v,
{
    if v < 128 {
        seq![v as u8]
    } else {
        seq![(128 + v % 128) as u8] + uleb_encode(v / 128)
    }
}

/// Append the encoding of `value` to `out`.
pub fn write_uleb128(out: &mut Vec<u8>, value: u64)
    ensures
        final(out)@ == old(out)@ + uleb_encode(value as nat),
{
    let mut v: u64 = value;
    loop
        invariant
            old(out)@ + uleb_encode(value as nat) =~= out@ + uleb_encode(v as nat),
        decreases v,
    {
        if v < 128 {
            out.push(v as u8);
            proof {
                assert(out@ =~= old(out)@ + uleb_encode(value as nat));
            }
            return ;
        } else {
            out.push(128 + (v % 128) as u8);
            proof {
                assert(old(out)@ + uleb_encode(value as nat) =~= out@ + uleb_encode(
                    (v / 128) as nat,
                ));
            }
            v = v / 128;
        }
    }
}

/// Decoding inverts encoding: wherever the encoding of `v` sits in a buffer,
/// the decoder started `k` groups deep reads back exactly `v`, provided `v`
/// fits in the bits that remain of the 64-bit width.
pub proof fn lemma_uleb_round_trip_from(s: Seq<u8>, pos: int, v: nat, k: nat)
    requires
        k <= 9,
        v < pow2((64 - 7 * k) as nat),
        0 <= pos,
        pos + uleb_encode(v).len() <= s.len(),
        s.subrange(pos, pos + uleb_encode(v).len() as int) == uleb_encode(v),
    ensures
        uleb_from(s, pos, k) == (UlebOut::Value { value: v, size: k + uleb_encode(v).len() }),
    decreases v,
{
    lemma2_to64();
    lemma2_to64_rest();
    let enc = uleb_encode(v);
    assert(s[pos] == enc[0]);
    if v < 128 {
        assert(s[pos] == v as u8);
        if k == 9 {
            assert(pow2((64 - 7 * k) as nat) == 2);
        }
    } else {
        let b = (128 + v % 128) as u8;
        assert(s[pos] == b);
        // With at least two groups left, nine groups cannot already be done.
        if k == 9 {
            assert(pow2(1) == 2);
            assert(false);
        }
        let tail = uleb_encode(v / 128);
        assert(s.subrange(pos + 1, pos + 1 + tail.len() as int) =~= tail) by {
            assert(forall|j: int|
                0 <= j < tail.len() ==> #[trigger] s.subrange(pos + 1, pos + 1 + tail.len() as int)[j] == enc[j + 1]);
        }
        assert(v / 128 < pow2((64 - 7 * (k + 1)) as nat)) by {
            lemma_pow2_adds((57 - 7 * k) as nat, 7);
            assert(v / 128 < pow2((57 - 7 * k) as nat)) by (nonlinear_arith)
                requires
                    v < pow2((57 - 7 * k) as nat) * pow2(7),
                    pow2(7) == 128,
                    pow2((57 - 7 * k) as nat) >= 0,
            ;
        }
        lemma_uleb_round_trip_from(s, pos + 1, v / 128, (k + 1) as nat);
        lemma_fundamental_div_mod(v as int, 128);
        assert((b - 128) as nat + 128 * (v / 128) == v);
    }
}

/// Round trip of the variable-length integer encoding: decoding the encoding
/// of any 64-bit value reproduces that value exactly, consuming exactly the
/// encoded bytes.
pub proof fn lemma_uleb_round_trip(s: Seq<u8>, pos: int, v: u64)
    requires
        0 <= pos,
        pos + uleb_encode(v as nat).len() <= s.len(),
        s.subrange(pos, pos + uleb_encode(v as nat).len() as int) == uleb_encode(v as nat),
    ensures
        uleb(s, pos) == (UlebOut::Value { value: v as nat, size: uleb_encode(v as nat).len() }),
{
    lemma2_to64();
    lemma2_to64_rest();
    lemma_uleb_round_trip_from(s, pos, v as nat, 0);
}

/// A stream that keeps its continuation bit set through the full ten-byte
/// span of the 64-bit target width must fail as an overflow, never silently
/// truncate: helper generalized over how many groups are already consumed.
proof fn lemma_uleb_overflow_from(s: Seq<u8>, pos: int, k: nat)
    requires
        k <= 9,
        0 <= pos,
        pos + (10 - k) <= s.len(),
        forall|i: int| 0 <= i < 10 - k ==> #[trigger] s[pos + i] >= 128,
    ensures
        uleb_from(s, pos, k) == UlebOut::Overflow,
    decreases 10 - k,
{
    assert(s[pos + 0] >= 128);
    if k < 9 {
        assert forall|j: int| 0 <= j < 10 - (k + 1) implies #[trigger] s[pos + 1 + j] >= 128 by {
            assert(s[pos + (j + 1)] >= 128);
        }
        lemma_uleb_overflow_from(s, pos + 1, (k + 1) as nat);
    }
}

/// An unterminated run of ten continuation bytes overflows the 64-bit
/// target width: the decode fails rather than truncating.
pub proof fn lemma_uleb_overflow(s: Seq<u8>, pos: int)
    requires
        0 <= pos,
        pos + 10 <= s.len(),
        forall|i: int| 0 <= i < 10 ==> #[trigger] s[pos + i] >= 128,
    ensures
        uleb(s, pos) == UlebOut::Overflow,
{
    lemma_uleb_overflow_from(s, pos, 0);
}

} // verus!
