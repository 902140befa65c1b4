//! Decoder core for UIC railway ticket barcodes.
//!
//! The heart of this crate is a verified codec for ITU-T X.691 Packed
//! Encoding Rules in their UNALIGNED variant (UPER): an arbitrary-size
//! integer type with a fast small-value path, bit-level encode/decode
//! primitives for integers, length determinants, strings and booleans,
//! and the most-significant-bit-first conversions between bytes and bits.
//! Around it stand the record types of the flexible ticket schema, the
//! value types of the signature key database, and a text canvas for layout
//! records. The outer ticket framing writes numbers as fixed-width decimal
//! text, which [`bytes_to_usize`] reads back.

pub mod asn1_uper;
pub mod key_db;
pub mod uflex_3;
pub mod utlay_painter;

use vstd::prelude::*;

verus! {

/// Whether the bytes are a non-empty run of ASCII decimal digits.
pub open spec fn is_decimal_digits(s: Seq<u8>) -> bool {
    s.len() > 0 && forall|i: int| 0 <= i < s.len() ==> 48 <= #[trigger] s[i] <= 57
}

/// The number the digits spell, most significant digit first.
pub open spec fn decimal_value(s: Seq<u8>) -> int
    decreases s.len(),
{
    if s.len() == 0 {
        0
    } else {
        10 * decimal_value(s.drop_last()) + (s.last() - 48)
    }
}

/// A run of decimal digits never spells less than any of its prefixes.
proof fn lemma_decimal_value_prefix(s: Seq<u8>, i: int)
    requires
        forall|j: int| 0 <= j < s.len() ==> 48 <= #[trigger] s[j] <= 57,
        0 <= i <= s.len(),
    ensures
        0 <= decimal_value(s.take(i)) <= decimal_value(s),
    decreases s.len() - i,
{
    if i == s.len() {
        assert(s.take(i) =~= s);
        lemma_decimal_value_nonneg(s);
    } else {
        lemma_decimal_value_prefix(s, i + 1);
        assert(s.take(i + 1).drop_last() =~= s.take(i));
        lemma_decimal_value_nonneg(s.take(i));
    }
}

/// Digits spell a non-negative number.
proof fn lemma_decimal_value_nonneg(s: Seq<u8>)
    requires
        forall|j: int| 0 <= j < s.len() ==> 48 <= #[trigger] s[j] <= 57,
    ensures
        decimal_value(s) >= 0,
    decreases s.len(),
{
    if s.len() > 0 {
        lemma_decimal_value_nonneg(s.drop_last());
    }
}

/// Reads a number from its fixed-width decimal text, as the outer ticket
/// framing stores record and payload lengths. Fails on anything but plain
/// digits, and on a value beyond the platform's size type.
pub fn bytes_to_usize(slice: &[u8]) -> (r: Option<usize>)
    ensures
        match r {
            Some(v) => is_decimal_digits(slice@) && v == decimal_value(slice@),
            None => !is_decimal_digits(slice@) || decimal_value(slice@) > usize::MAX,
        },
{
    if slice.len() == 0 {
        return None;
    }
    let mut acc: usize = 0;
    let mut i: usize = 0;
    while i < slice.len()
        invariant
            0 <= i <= slice@.len(),
            acc == decimal_value(slice@.take(i as int)),
            forall|j: int| 0 <= j < i ==> 48 <= #[trigger] slice@[j] <= 57,
        decreases slice@.len() - i,
    {
        let b = slice[i];
        if b < 48 || b > 57 {
            return None;
        }
        proof {
            assert(slice@.take(i + 1).drop_last() =~= slice@.take(i as int));
        }
        let widened = match acc.checked_mul(10) {
            Some(w) => w,
            None => {
                proof {
                    lemma_decimal_value_prefix_helper(slice@, i as int);
                }
                return None;
            },
        };
        acc = match widened.checked_add((b - 48) as usize) {
            Some(a) => a,
            None => {
                proof {
                    lemma_decimal_value_prefix_helper(slice@, i as int);
                }
                return None;
            },
        };
        i += 1;
    }
    proof {
        assert(slice@.take(slice@.len() as int) =~= slice@);
    }
    Some(acc)
}

/// If one more digit already overflows the word, the whole run does.
proof fn lemma_decimal_value_prefix_helper(s: Seq<u8>, i: int)
    requires
        0 <= i < s.len(),
        forall|j: int| 0 <= j <= i ==> 48 <= #[trigger] s[j] <= 57,
        10 * decimal_value(s.take(i)) + (s[i] - 48) > usize::MAX,
    ensures
        !is_decimal_digits(s) || decimal_value(s) > usize::MAX,
{
    if is_decimal_digits(s) {
        lemma_decimal_value_prefix(s, i + 1);
        assert(s.take(i + 1).drop_last() =~= s.take(i));
    }
}

} // verus!
