//! Mathematical model of MSB-first bit strings.
//!
//! Every codec primitive is specified against the functions in this module:
//! the value of a bit string read as an unsigned or two's-complement binary
//! integer, the bit string of a given value and width, and the shift-counting
//! size measure that X.691 uses to size constrained fields.

use vstd::prelude::*;
use vstd::arithmetic::power2::{pow2, lemma_pow2_unfold, lemma_pow2_adds, lemma_pow2_pos};
use vstd::arithmetic::div_mod::{
    lemma_fundamental_div_mod, lemma_fundamental_div_mod_converse_mod,
    lemma_fundamental_div_mod_converse_div, lemma_div_denominator, lemma_small_mod,
};

verus! {

/// The value of a bit string read as an unsigned binary integer,
/// most significant bit first.
pub open spec fn unsigned_bits_value(bits: Seq<bool>) -> int
    decreases bits.len(),
{
    if bits.len() == 0 {
        0
    } else {
        2 * unsigned_bits_value(bits.drop_last()) + if bits.last() {
            1int
        } else {
            0int
        }
    }
}

/// The value of a bit string read as a two's-complement binary integer:
/// the first bit weighs `-2^(n-1)` instead of `+2^(n-1)`.
pub open spec fn signed_bits_value(bits: Seq<bool>) -> int {
    unsigned_bits_value(bits) - if bits.len() > 0 && bits[0] {
        pow2(bits.len()) as int
    } else {
        0int
    }
}

/// The `width`-bit MSB-first bit string of `v` modulo `2^width`.
pub open spec fn bits_of_unsigned(v: int, width: nat) -> Seq<bool>
    decreases width,
{
    if width == 0 {
        Seq::empty()
    } else {
        bits_of_unsigned(v / 2, (width - 1) as nat).push(v % 2 == 1)
    }
}

/// How often `v` can be shifted right by one bit before it reaches zero:
/// the number of binary digits of `v`, and `0` for values below `1`.
pub open spec fn shift_count(v: int) -> nat
    decreases v,
{
    if v <= 0 {
        0
    } else {
        (1 + shift_count(v / 2)) as nat
    }
}

/// An unsigned reading is non-negative and bounded by `2^len`.
pub proof fn lemma_unsigned_bits_value_bounds(bits: Seq<bool>)
    ensures
        0 <= unsigned_bits_value(bits) < pow2(bits.len()),
    decreases bits.len(),
{
    if bits.len() == 0 {
        assert(pow2(0) == 1) by {
            lemma_pow2_pos(0);
            vstd::arithmetic::power2::lemma2_to64();
        }
    } else {
        lemma_unsigned_bits_value_bounds(bits.drop_last());
        lemma_pow2_unfold(bits.len());
    }
}

/// Reading a concatenation: the left part is shifted past the right part.
pub proof fn lemma_unsigned_bits_value_append(a: Seq<bool>, b: Seq<bool>)
    ensures
        unsigned_bits_value(a + b) == unsigned_bits_value(a) * pow2(b.len())
            + unsigned_bits_value(b),
    decreases b.len(),
{
    if b.len() == 0 {
        assert(a + b =~= a);
        assert(pow2(0) == 1) by {
            vstd::arithmetic::power2::lemma2_to64();
        }
    } else {
        assert((a + b).drop_last() =~= a + b.drop_last());
        lemma_unsigned_bits_value_append(a, b.drop_last());
        lemma_pow2_unfold(b.len());
        let pl = pow2((b.len() - 1) as nat) as int;
        assert(2 * (unsigned_bits_value(a) * pl) == unsigned_bits_value(a) * (2 * pl))
            by (nonlinear_arith);
    }
}

/// The unsigned reading of `bits_of_unsigned(v, w)` is `v` modulo `2^w`.
pub proof fn lemma_bits_of_unsigned_mod(v: int, width: nat)
    ensures
        bits_of_unsigned(v, width).len() == width,
        unsigned_bits_value(bits_of_unsigned(v, width)) == v % (pow2(width) as int),
    decreases width,
{
    if width == 0 {
        assert(pow2(0) == 1) by {
            vstd::arithmetic::power2::lemma2_to64();
        }
    } else {
        lemma_bits_of_unsigned_mod(v / 2, (width - 1) as nat);
        let d = pow2((width - 1) as nat) as int;
        lemma_pow2_pos((width - 1) as nat);
        lemma_pow2_unfold(width);
        let q = v / 2;
        let r = v % 2;
        lemma_fundamental_div_mod(v, 2);
        lemma_fundamental_div_mod(q, d);
        // v == 2 * d * (q / d) + (2 * (q % d) + r), with the tail in [0, 2d)
        assert(v == (q / d) * (2 * d) + (2 * (q % d) + r)) by (nonlinear_arith)
            requires
                v == 2 * q + r,
                q == d * (q / d) + (q % d),
        ;
        lemma_fundamental_div_mod_converse_mod(v, 2 * d, q / d, 2 * (q % d) + r);
        let enc = bits_of_unsigned(v, width);
        assert(enc.drop_last() =~= bits_of_unsigned(q, (width - 1) as nat));
    }
}

/// For `v` in range, the unsigned reading is exactly `v`.
pub proof fn lemma_bits_of_unsigned_value(v: int, width: nat)
    requires
        0 <= v < pow2(width),
    ensures
        bits_of_unsigned(v, width).len() == width,
        unsigned_bits_value(bits_of_unsigned(v, width)) == v,
{
    lemma_bits_of_unsigned_mod(v, width);
    lemma_small_mod(v as nat, pow2(width));
}

/// The encoding only depends on the value modulo `2^width`.
pub proof fn lemma_bits_of_unsigned_period(v: int, width: nat)
    ensures
        bits_of_unsigned(v + pow2(width), width) == bits_of_unsigned(v, width),
    decreases width,
{
    if width == 0 {
    } else {
        let d = pow2((width - 1) as nat) as int;
        lemma_pow2_pos((width - 1) as nat);
        lemma_pow2_unfold(width);
        let w = pow2(width) as int;
        // (v + 2d) / 2 == v / 2 + d and (v + 2d) % 2 == v % 2
        lemma_fundamental_div_mod(v, 2);
        assert(v + w == (v / 2 + d) * 2 + v % 2) by (nonlinear_arith)
            requires
                v == 2 * (v / 2) + v % 2,
                w == 2 * d,
        ;
        lemma_fundamental_div_mod_converse_div(v + w, 2, v / 2 + d, v % 2);
        lemma_fundamental_div_mod_converse_mod(v + w, 2, v / 2 + d, v % 2);
        lemma_bits_of_unsigned_period(v / 2, (width - 1) as nat);
    }
}

/// The first (most significant) bit of the encoding of a non-negative value.
pub proof fn lemma_bits_of_unsigned_first(v: int, width: nat)
    requires
        width >= 1,
        v >= 0,
    ensures
        bits_of_unsigned(v, width).len() == width,
        bits_of_unsigned(v, width)[0] == (v / (pow2((width - 1) as nat) as int) % 2 == 1),
    decreases width,
{
    lemma_bits_of_unsigned_mod(v, width);
    if width == 1 {
        assert(pow2(0) == 1) by {
            vstd::arithmetic::power2::lemma2_to64();
        }
    } else {
        lemma_bits_of_unsigned_first(v / 2, (width - 1) as nat);
        let enc = bits_of_unsigned(v, width);
        assert(enc[0] == bits_of_unsigned(v / 2, (width - 1) as nat)[0]);
        lemma_pow2_pos((width - 2) as nat);
        lemma_pow2_unfold((width - 1) as nat);
        lemma_div_denominator(v, 2, pow2((width - 2) as nat) as int);
    }
}

/// Each bit of the encoding of a non-negative value, by index.
pub proof fn lemma_bits_of_unsigned_index(v: int, width: nat, i: int)
    requires
        v >= 0,
        0 <= i < width,
    ensures
        bits_of_unsigned(v, width).len() == width,
        bits_of_unsigned(v, width)[i] == (v / (pow2((width - 1 - i) as nat) as int) % 2 == 1),
    decreases width,
{
    lemma_bits_of_unsigned_mod(v, width);
    if i == width - 1 {
        assert(pow2(0) == 1) by {
            vstd::arithmetic::power2::lemma2_to64();
        }
        assert(v / 1 == v);
    } else {
        lemma_bits_of_unsigned_index(v / 2, (width - 1) as nat, i);
        let k = (width - 2 - i) as nat;
        lemma_pow2_pos(k);
        lemma_pow2_unfold((width - 1 - i) as nat);
        lemma_div_denominator(v, 2, pow2(k) as int);
    }
}

/// The two's-complement reading of a `width`-bit encoding recovers any value
/// in the signed range.
pub proof fn lemma_bits_of_signed_value(v: int, width: nat)
    requires
        width >= 1,
        -(pow2((width - 1) as nat) as int) <= v < pow2((width - 1) as nat),
    ensures
        bits_of_unsigned(v, width).len() == width,
        signed_bits_value(bits_of_unsigned(v, width)) == v,
{
    let h = pow2((width - 1) as nat) as int;
    let w = pow2(width) as int;
    lemma_pow2_pos((width - 1) as nat);
    lemma_pow2_unfold(width);
    if v >= 0 {
        lemma_bits_of_unsigned_value(v, width);
        lemma_bits_of_unsigned_first(v, width);
        lemma_fundamental_div_mod_converse_div(v, h, 0, v);
        assert(v == 0 * h + v) by (nonlinear_arith);
    } else {
        let v2 = v + w;
        lemma_bits_of_unsigned_period(v, width);
        lemma_bits_of_unsigned_value(v2, width);
        lemma_bits_of_unsigned_first(v2, width);
        // v2 / h == 1, so the sign bit is set
        lemma_fundamental_div_mod_converse_div(v2, h, 1, v2 - h);
        assert(v2 == 1 * h + (v2 - h)) by (nonlinear_arith);
    }
}

/// The bytes read from a bit string in groups of `bits_per_byte`,
/// each group MSB first. Meaningful when the length is a multiple of
/// `bits_per_byte`.
pub open spec fn bytes_from_bits(bits: Seq<bool>, bits_per_byte: nat) -> Seq<u8>
    decreases bits.len(),
{
    if bits.len() < bits_per_byte || bits_per_byte == 0 {
        Seq::empty()
    } else {
        seq![unsigned_bits_value(bits.take(bits_per_byte as int)) as u8] + bytes_from_bits(
            bits.skip(bits_per_byte as int),
            bits_per_byte,
        )
    }
}

/// The bit string of a byte sequence, `bits_per_byte` bits per byte,
/// each byte MSB first.
pub open spec fn bits_of_bytes(bytes: Seq<u8>, bits_per_byte: nat) -> Seq<bool>
    decreases bytes.len(),
{
    if bytes.len() == 0 {
        Seq::empty()
    } else {
        bits_of_unsigned(bytes[0] as int, bits_per_byte) + bits_of_bytes(
            bytes.drop_first(),
            bits_per_byte,
        )
    }
}

/// The bytes of a bit string grouped in eights, MSB first, with an
/// incomplete trailing group padded with zero bits on the right.
pub open spec fn bytes_of_bits_padded(bits: Seq<bool>) -> Seq<u8>
    decreases bits.len(),
{
    if bits.len() == 0 {
        Seq::empty()
    } else if bits.len() >= 8 {
        seq![unsigned_bits_value(bits.take(8)) as u8] + bytes_of_bits_padded(bits.skip(8))
    } else {
        seq![(unsigned_bits_value(bits) * pow2((8 - bits.len()) as nat)) as u8]
    }
}

/// Appending one byte to a byte sequence appends its bits.
pub proof fn lemma_bits_of_bytes_snoc(bytes: Seq<u8>, b: u8, bits_per_byte: nat)
    ensures
        bits_of_bytes(bytes.push(b), bits_per_byte) == bits_of_bytes(bytes, bits_per_byte)
            + bits_of_unsigned(b as int, bits_per_byte),
    decreases bytes.len(),
{
    if bytes.len() == 0 {
        assert(bytes.push(b).drop_first() =~= Seq::<u8>::empty());
        assert(bits_of_bytes(Seq::<u8>::empty(), bits_per_byte) =~= Seq::<bool>::empty());
        assert(bits_of_bytes(bytes.push(b), bits_per_byte) =~= bits_of_bytes(bytes, bits_per_byte)
            + bits_of_unsigned(b as int, bits_per_byte));
    } else {
        assert(bytes.push(b).drop_first() =~= bytes.drop_first().push(b));
        lemma_bits_of_bytes_snoc(bytes.drop_first(), b, bits_per_byte);
        assert(bits_of_unsigned(bytes[0] as int, bits_per_byte) + (bits_of_bytes(
            bytes.drop_first(),
            bits_per_byte,
        ) + bits_of_unsigned(b as int, bits_per_byte)) =~= (bits_of_unsigned(
            bytes[0] as int,
            bits_per_byte,
        ) + bits_of_bytes(bytes.drop_first(), bits_per_byte)) + bits_of_unsigned(
            b as int,
            bits_per_byte,
        ));
        assert(bytes.push(b)[0] == bytes[0]);
    }
}

/// Whether `suffix` is what remains of `of` after some prefix was consumed.
/// Every decoder leaves such a suffix as its remaining input.
pub open spec fn is_suffix_of(suffix: Seq<bool>, of: Seq<bool>) -> bool {
    suffix.len() <= of.len() && suffix == of.skip(of.len() - suffix.len())
}

/// The decimal digits of a non-negative value, most significant first;
/// zero reads as a single zero digit.
pub open spec fn spec_decimal_digits(v: int) -> Seq<char>
    decreases v,
{
    if v < 10 {
        seq![((48 + if v >= 0 {
            v
        } else {
            0int
        }) as u8) as char]
    } else {
        spec_decimal_digits(v / 10).push(((48 + v % 10) as u8) as char)
    }
}

/// The decimal text of a value: a minus sign for negatives, then the
/// digits of the magnitude without leading zeros.
pub open spec fn spec_decimal_string(v: int) -> Seq<char> {
    if v < 0 {
        seq!['-'] + spec_decimal_digits(-v)
    } else {
        spec_decimal_digits(v)
    }
}

/// Skipping nothing leaves the bit string as it is.
pub broadcast proof fn lemma_skip_zero(s: Seq<bool>)
    ensures
        #[trigger] s.skip(0) == s,
{
    assert(s.skip(0) =~= s);
}

/// What a decoder leaves after consuming `k` bits is a suffix of its input.
pub broadcast proof fn lemma_skip_is_suffix(bits: Seq<bool>, k: int)
    requires
        0 <= k <= bits.len(),
    ensures
        is_suffix_of(#[trigger] bits.skip(k), bits),
{
    assert(bits.skip(k) =~= bits.skip(bits.len() - bits.skip(k).len()));
}

/// Suffixes compose: what a second decoder leaves of what a first decoder
/// left is still a suffix of the original input.
pub broadcast proof fn lemma_suffix_transitive(a: Seq<bool>, b: Seq<bool>, c: Seq<bool>)
    requires
        #[trigger] is_suffix_of(b, a),
        #[trigger] is_suffix_of(c, b),
    ensures
        is_suffix_of(c, a),
{
    assert(a.skip(a.len() - b.len()).skip(b.len() - c.len()) =~= a.skip(a.len() - c.len()));
}

/// A bit string is a suffix of itself.
pub broadcast proof fn lemma_suffix_reflexive(a: Seq<bool>)
    ensures
        #[trigger] is_suffix_of(a, a),
{
    assert(a =~= a.skip(0));
}

/// Every non-negative value fits in `shift_count` of itself many bits.
pub proof fn lemma_shift_count_bound(v: int)
    requires
        v >= 0,
    ensures
        v < pow2(shift_count(v)),
    decreases v,
{
    if v <= 0 {
        assert(pow2(0) == 1) by {
            vstd::arithmetic::power2::lemma2_to64();
        }
    } else {
        lemma_shift_count_bound(v / 2);
        lemma_pow2_unfold(shift_count(v));
        lemma_fundamental_div_mod(v, 2);
    }
}

/// A value below `2^k` needs at most `k` bits.
pub proof fn lemma_shift_count_le(v: int, k: nat)
    requires
        0 <= v < pow2(k),
    ensures
        shift_count(v) <= k,
    decreases k,
{
    if v > 0 {
        vstd::arithmetic::power2::lemma2_to64();
        if k == 0 {
        } else {
            lemma_pow2_unfold(k);
            lemma_fundamental_div_mod(v, 2);
            lemma_shift_count_le(v / 2, (k - 1) as nat);
        }
    }
}

} // verus!
