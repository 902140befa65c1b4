//! Round-trip laws of the codec.
//!
//! Each lemma states, over the same spec functions that the encoder's and
//! decoder's contracts use, that decoding what the encoder produced — with
//! arbitrary further input appended — returns the original value and
//! consumes exactly the bits the encoder wrote.

use vstd::prelude::*;
use vstd::arithmetic::power2::pow2;
use crate::asn1_uper::bits::{
    unsigned_bits_value, bits_of_unsigned, shift_count, bytes_from_bits, bits_of_bytes,
    lemma_bits_of_unsigned_mod, lemma_bits_of_unsigned_value, lemma_bits_of_signed_value,
    lemma_shift_count_bound, lemma_unsigned_bits_value_bounds,
};
use crate::asn1_uper::{
    WholeNumberConstraint, NumberOutcome, BytesOutcome, spec_decode_length_general,
    spec_decode_normally_small, spec_decode_length, spec_decode_integer, spec_decode_string,
    spec_encode_length_general, spec_encode_normally_small, spec_encode_length,
    spec_encode_integer, spec_encode_semi, spec_semi_content_width,
    spec_unconstrained_content_width, spec_constraint_usable, spec_length_encodable,
    spec_integer_encodable, spec_encode_integer_preconditions, spec_singular_value,
};

verus! {

/// When the general length form round-trips: the short forms always, the
/// block form only for a whole number of at most four blocks, since only
/// the block count is stored.
pub open spec fn general_length_reversible(v: int) -> bool {
    0 <= v && (v <= 16383 || (v % 16384 == 0 && v <= 4 * 16384))
}

/// A general-form length determinant decodes back to the count it was
/// written from, consuming exactly the bits written, whatever follows.
pub proof fn lemma_general_length_round_trip(v: int, tail: Seq<bool>)
    requires
        general_length_reversible(v),
    ensures
        spec_decode_length_general(spec_encode_length_general(v) + tail)
            == (NumberOutcome::Taken { consumed: spec_encode_length_general(v).len() as int, value: v }),
{
    vstd::arithmetic::power2::lemma2_to64();
    let enc = spec_encode_length_general(v);
    let bits = enc + tail;
    if v <= 127 {
        let e = bits_of_unsigned(v, 7);
        lemma_bits_of_unsigned_mod(v, 7);
        lemma_bits_of_unsigned_value(v, 7);
        assert(bits[0] == false);
        assert(bits.subrange(1, 8) =~= e);
    } else if v <= 16383 {
        let e = bits_of_unsigned(v, 14);
        lemma_bits_of_unsigned_mod(v, 14);
        lemma_bits_of_unsigned_value(v, 14);
        assert(bits[0] == true);
        assert(bits[1] == false);
        assert(bits.subrange(2, 16) =~= e);
    } else {
        let b = v / 16384;
        let e = bits_of_unsigned(b, 6);
        lemma_bits_of_unsigned_mod(b, 6);
        vstd::arithmetic::div_mod::lemma_fundamental_div_mod(v, 16384);
        lemma_bits_of_unsigned_value(b, 6);
        assert(bits[0] == true);
        assert(bits[1] == true);
        assert(bits.subrange(2, 8) =~= e);
        assert(b * 16384 == v);
    }
}

/// When a normally-small count round-trips: always below 64, and above only
/// while its octet count stays out of the block form.
pub open spec fn normally_small_reversible(v: int) -> bool {
    0 <= v && (v < 64 || spec_semi_content_width(0, v) / 8 <= 16383)
}

/// A normally-small count decodes back to the value it was written from.
pub proof fn lemma_normally_small_round_trip(v: int, tail: Seq<bool>)
    requires
        normally_small_reversible(v),
    ensures
        spec_decode_normally_small(spec_encode_normally_small(v) + tail)
            == (NumberOutcome::Taken {
            consumed: spec_encode_normally_small(v).len() as int,
            value: v,
        }),
{
    vstd::arithmetic::power2::lemma2_to64();
    let enc = spec_encode_normally_small(v);
    let bits = enc + tail;
    if v < 64 {
        let e = bits_of_unsigned(v, 6);
        lemma_bits_of_unsigned_mod(v, 6);
        lemma_bits_of_unsigned_value(v, 6);
        assert(bits[0] == false);
        assert(bits.subrange(1, 7) =~= e);
    } else {
        let w = spec_semi_content_width(0, v);
        let bc = w / 8;
        let len_enc = spec_encode_length_general(bc);
        let content = bits_of_unsigned(v, w as nat);
        lemma_bits_of_unsigned_mod(v, w as nat);
        assert(bits[0] == true);
        assert(bits.skip(1) =~= len_enc + (content + tail));
        lemma_general_length_round_trip(bc, content + tail);
        let k = len_enc.len() as int;
        assert(8 * bc == w);
        lemma_shift_count_bound(v);
        if shift_count(v) < w {
            vstd::arithmetic::power2::lemma_pow2_strictly_increases(shift_count(v), w as nat);
        }
        lemma_bits_of_unsigned_value(v, w as nat);
        assert(bits.subrange(1 + k, 1 + k + w) =~= content);
    }
}

/// Every integer decodes back to the value it was encoded from, consuming
/// exactly the bits the encoder produced, whatever bits follow — for every
/// constraint shape, over the whole declared range, as long as a
/// semi-constrained or unconstrained content keeps its octet count out of
/// the fragmented block form.
pub open spec fn integer_reversible(c: WholeNumberConstraint, v: int) -> bool {
    match c {
        WholeNumberConstraint::SemiConstrained { min } => spec_semi_content_width(min@, v) / 8
            <= 16383,
        WholeNumberConstraint::Unconstrained => spec_unconstrained_content_width(v) / 8 <= 16383,
        _ => true,
    }
}

/// The round-trip law for the integer codec.
pub proof fn lemma_integer_round_trip(c: WholeNumberConstraint, v: int, tail: Seq<bool>)
    requires
        spec_constraint_usable(c),
        !(c matches WholeNumberConstraint::NormallySmall),
        spec_encode_integer_preconditions(c, v),
        spec_integer_encodable(c, v),
        integer_reversible(c, v),
    ensures
        spec_decode_integer(spec_encode_integer(c, v) + tail, c) == (NumberOutcome::Taken {
            consumed: spec_encode_integer(c, v).len() as int,
            value: v,
        }),
{
    vstd::arithmetic::power2::lemma2_to64();
    let enc = spec_encode_integer(c, v);
    let bits = enc + tail;
    match c {
        WholeNumberConstraint::Constrained { min, max } => {
            if min@ == max@ {
                assert(v == min@);
            } else {
                let w = shift_count(max@ - min@);
                let e = bits_of_unsigned(v - min@, w);
                lemma_bits_of_unsigned_mod(v - min@, w);
                lemma_shift_count_bound(max@ - min@);
                lemma_bits_of_unsigned_value(v - min@, w);
                assert(bits.take(w as int) =~= e);
            }
        },
        WholeNumberConstraint::SemiConstrained { min } => {
            let m = v - min@;
            let w = spec_semi_content_width(min@, v);
            let bc = w / 8;
            let len_enc = spec_encode_length_general(bc);
            let content = bits_of_unsigned(m, w as nat);
            lemma_bits_of_unsigned_mod(m, w as nat);
            assert(bits =~= len_enc + (content + tail));
            lemma_general_length_round_trip(bc, content + tail);
            let k = len_enc.len() as int;
            assert(8 * bc == w);
            lemma_shift_count_bound(m);
            if shift_count(m) < w {
                vstd::arithmetic::power2::lemma_pow2_strictly_increases(shift_count(m), w as nat);
            }
            lemma_bits_of_unsigned_value(m, w as nat);
            assert(bits.subrange(k, k + w) =~= content);
        },
        WholeNumberConstraint::Unconstrained => {
            let w = spec_unconstrained_content_width(v);
            let bc = w / 8;
            let len_enc = spec_encode_length_general(bc);
            let content = bits_of_unsigned(v, w as nat);
            lemma_bits_of_unsigned_mod(v, w as nat);
            assert(bits =~= len_enc + (content + tail));
            lemma_general_length_round_trip(bc, content + tail);
            let k = len_enc.len() as int;
            assert(8 * bc == w);
            if v == 0 {
                assert(content =~= Seq::<bool>::empty());
                assert(bits.subrange(k, k) =~= content);
            } else {
                let m = if v >= 0 {
                    v
                } else {
                    -v - 1
                };
                lemma_shift_count_bound(m);
                if shift_count(m) < w - 1 {
                    vstd::arithmetic::power2::lemma_pow2_strictly_increases(
                        shift_count(m),
                        (w - 1) as nat,
                    );
                }
                lemma_bits_of_signed_value(v, w as nat);
                assert(bits.subrange(k, k + w) =~= content);
            }
        },
        WholeNumberConstraint::NormallySmall => {},
    }
}

/// A constrained field whose range admits exactly one value takes zero bits
/// in both directions: encoding its value writes nothing, and decoding
/// consumes nothing and returns that value, whatever the input bits and
/// however large the value.
pub proof fn lemma_singular_zero_bits(c: WholeNumberConstraint, v: int, bits: Seq<bool>)
    requires
        spec_singular_value(c) == Some(v),
    ensures
        spec_encode_integer(c, v) == Seq::<bool>::empty(),
        spec_decode_integer(bits, c) == (NumberOutcome::Taken { consumed: 0, value: v }),
        spec_decode_length(bits, c) == (NumberOutcome::Taken { consumed: 0, value: v }),
{
}

/// When a length determinant round-trips. A constrained count below 64K is
/// written as its offset from `min` but read back raw, so those only
/// round-trip from a zero minimum; a singular count always does.
pub open spec fn length_reversible(c: WholeNumberConstraint, v: int) -> bool {
    match c {
        WholeNumberConstraint::Constrained { min, max } => min@ == max@ || (max@ < 65536 && min@
            == 0) || (max@ >= 65536 && general_length_reversible(v)),
        WholeNumberConstraint::NormallySmall => normally_small_reversible(v),
        _ => general_length_reversible(v),
    }
}

/// The round-trip law for the length-determinant codec.
pub proof fn lemma_length_round_trip(c: WholeNumberConstraint, v: int, tail: Seq<bool>)
    requires
        spec_constraint_usable(c),
        0 <= v,
        spec_length_encodable(c, v),
        length_reversible(c, v),
    ensures
        spec_decode_length(spec_encode_length(c, v) + tail, c) == (NumberOutcome::Taken {
            consumed: spec_encode_length(c, v).len() as int,
            value: v,
        }),
{
    vstd::arithmetic::power2::lemma2_to64();
    let enc = spec_encode_length(c, v);
    let bits = enc + tail;
    match c {
        WholeNumberConstraint::Constrained { min, max } => {
            if min@ == max@ {
                assert(v == min@);
            } else if max@ < 65536 {
                let w = shift_count(max@ - min@);
                let e = bits_of_unsigned(v, w);
                lemma_bits_of_unsigned_mod(v, w);
                lemma_bits_of_unsigned_value(v, w);
                assert(bits.take(w as int) =~= e);
            } else {
                lemma_general_length_round_trip(v, tail);
            }
        },
        WholeNumberConstraint::NormallySmall => {
            lemma_normally_small_round_trip(v, tail);
        },
        _ => {
            lemma_general_length_round_trip(v, tail);
        },
    }
}

/// Reading back `bits_per_byte`-bit groups recovers the bytes they were
/// written from, for bytes that fit the group width.
pub proof fn lemma_bytes_bits_inverse(bytes: Seq<u8>, bits_per_byte: nat)
    requires
        1 <= bits_per_byte <= 8,
        forall|i: int| 0 <= i < bytes.len() ==> (bytes[i] as int) < pow2(bits_per_byte),
    ensures
        bits_of_bytes(bytes, bits_per_byte).len() == bits_per_byte * bytes.len(),
        bytes_from_bits(bits_of_bytes(bytes, bits_per_byte), bits_per_byte) == bytes,
    decreases bytes.len(),
{
    if bytes.len() == 0 {
        assert(bytes_from_bits(bits_of_bytes(bytes, bits_per_byte), bits_per_byte) =~= bytes);
    } else {
        let head = bytes[0];
        let rest = bytes.drop_first();
        let e = bits_of_unsigned(head as int, bits_per_byte);
        lemma_bits_of_unsigned_mod(head as int, bits_per_byte);
        lemma_bits_of_unsigned_value(head as int, bits_per_byte);
        lemma_bytes_bits_inverse(rest, bits_per_byte);
        let all = bits_of_bytes(bytes, bits_per_byte);
        assert(all =~= e + bits_of_bytes(rest, bits_per_byte));
        assert(all.take(bits_per_byte as int) =~= e);
        assert(all.skip(bits_per_byte as int) =~= bits_of_bytes(rest, bits_per_byte));
        assert(bits_per_byte * bytes.len() == bits_per_byte + bits_per_byte * rest.len())
            by (nonlinear_arith)
            requires
                bytes.len() == rest.len() + 1,
        ;
        assert(bytes_from_bits(all, bits_per_byte) =~= bytes);
    }
}

/// The round-trip law for the string codecs: an octet or IA5 string whose
/// length determinant round-trips decodes back to the very bytes it was
/// encoded from, consuming exactly the bits produced.
pub proof fn lemma_string_round_trip(
    c: WholeNumberConstraint,
    bytes: Seq<u8>,
    bits_per_byte: int,
    tail: Seq<bool>,
)
    requires
        spec_constraint_usable(c),
        1 <= bits_per_byte <= 8,
        forall|i: int| 0 <= i < bytes.len() ==> (bytes[i] as int) < pow2(bits_per_byte as nat),
        spec_length_encodable(c, bytes.len() as int),
        length_reversible(c, bytes.len() as int),
        bits_per_byte * bytes.len() <= usize::MAX,
    ensures
        ({
            let enc = spec_encode_length(c, bytes.len() as int) + bits_of_bytes(
                bytes,
                bits_per_byte as nat,
            );
            spec_decode_string(enc + tail, c, bits_per_byte) == (BytesOutcome::Taken {
                consumed: enc.len() as int,
                bytes,
            })
        }),
{
    let n = bytes.len() as int;
    let len_enc = spec_encode_length(c, n);
    let content = bits_of_bytes(bytes, bits_per_byte as nat);
    let enc = len_enc + content;
    let bits = enc + tail;
    assert(bits =~= len_enc + (content + tail));
    lemma_length_round_trip(c, n, content + tail);
    lemma_bytes_bits_inverse(bytes, bits_per_byte as nat);
    let k = len_enc.len() as int;
    assert(n <= bits_per_byte * n) by (nonlinear_arith)
        requires
            n >= 0,
            bits_per_byte >= 1,
    ;
    assert(bits.subrange(k, k + bits_per_byte * n) =~= content);
}

/// The round-trip law for booleans: one bit out, the same bit back, with
/// the rest of the input untouched.
pub proof fn lemma_bool_round_trip(v: bool, tail: Seq<bool>)
    ensures
        (seq![v] + tail)[0] == v,
        (seq![v] + tail).skip(1) == tail,
        (seq![v] + tail).len() == 1 + tail.len(),
{
    assert((seq![v] + tail).skip(1) =~= tail);
}

/// The round-trip law for raw bit runs: a run of bits prepended to further
/// input is split back into exactly that run and that input.
pub proof fn lemma_bit_run_round_trip(run: Seq<bool>, tail: Seq<bool>)
    ensures
        (run + tail).take(run.len() as int) == run,
        (run + tail).skip(run.len() as int) == tail,
{
    assert((run + tail).take(run.len() as int) =~= run);
    assert((run + tail).skip(run.len() as int) =~= tail);
}

} // verus!
