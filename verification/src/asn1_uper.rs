//! ASN.1 PER UNALIGNED codec.
//!
//! Encoder and decoder for data encoded using ASN.1 Packed Encoding Rules in
//! their UNALIGNED variant (UPER) according to ITU-T X.691. The decoder works
//! on a borrowed slice of bits (one `bool` per bit, most significant bit
//! first) and returns the decoded value together with the remaining bits; the
//! encoder appends bits to a caller-supplied buffer. Every primitive is a
//! pure function: malformed input data surfaces as a structured error, never
//! as a panic.

mod bigint;
pub mod bits;
mod integer;
pub mod laws;

use vstd::prelude::*;
use vstd::arithmetic::power2::pow2;
use vstd::string::StringSliceAdditionalSpecFns;

pub use bigint::bigint_value;
pub use bits::{
    unsigned_bits_value, signed_bits_value, bits_of_unsigned, shift_count, bytes_from_bits,
    bits_of_bytes, bytes_of_bits_padded, is_suffix_of,
};
pub use integer::{Integer, TryFromIntegerError};

verus! {

/// An error that may occur when decoding PER-encoded data.
///
/// `bits_remaining` is the number of input bits that were still unread when
/// the error was detected; together with the length of the original input it
/// names the exact bit position of the offense.
#[derive(Clone, Debug, PartialEq, Eq)]
pub struct DecodingError {
    pub bits_remaining: usize,
    pub kind: ErrorKind,
}

impl DecodingError {
    pub fn new(bits_remaining: usize, kind: ErrorKind) -> (r: Self)
        ensures
            r.bits_remaining == bits_remaining,
            r.kind == kind,
    {
        Self { bits_remaining, kind }
    }
}

/// The type of error that may occur when decoding PER-encoded data.
#[derive(Clone, Debug, PartialEq, Eq)]
#[non_exhaustive]
pub enum ErrorKind {
    /// The end of the bit stream was encountered when more data was expected.
    #[non_exhaustive]
    Eof {},
    /// An invalid huge-length value has been encountered.
    ///
    /// Valid huge-length block counts are 1, 2, 3, and 4, corresponding to
    /// 16384, 32768, 49152, and 65536, respectively; see X.691 § 11.9.3.8.
    #[non_exhaustive]
    InvalidHugeLength { value: Integer },
    /// Failed to convert a length value to usize.
    #[non_exhaustive]
    LengthValueNotUsize { value: Integer },
    /// The string is not valid UTF-8.
    #[non_exhaustive]
    InvalidUtf8String { bytes: Vec<u8> },
    /// An ASN.1 extensibility marker was set; extensions are not interpreted.
    #[non_exhaustive]
    UnsupportedExtension {},
    /// An enumerated or choice index lies outside the declared alternatives.
    #[non_exhaustive]
    InvalidEnumerated { value: Integer },
}

/// How a decoding attempt can fail: either the input simply ended too early
/// (and `needed` more bits would let the caller retry), or the data itself is
/// structurally wrong.
#[derive(Clone, Debug, PartialEq, Eq)]
pub enum DecodeFailure {
    Incomplete { needed: usize },
    Error(DecodingError),
}

pub type ParseResult<'a, T> = Result<(&'a [bool], T), DecodeFailure>;

/// An error that may occur when encoding data into PER.
#[derive(Clone, Debug, PartialEq, Eq)]
#[non_exhaustive]
pub enum EncodingError {
    #[non_exhaustive]
    SingleValueIntegerHasWrongValue { expected: Integer, obtained: Integer },
    #[non_exhaustive]
    NonNegativeIntegerHasNegativeValue { obtained: Integer },
    #[non_exhaustive]
    IntegerDoesNotFitIntoBits { value: Integer, bits: usize },
    #[non_exhaustive]
    Ia5ByteHasTopBitSet { string: String, byte_index: usize },
}

/// A description of what range a whole number may occupy.
#[derive(Clone, Debug, Default, PartialEq, Eq)]
pub enum WholeNumberConstraint {
    /// A whole number that may take any value (X.691 § 3.7.27).
    #[default]
    Unconstrained,
    /// A whole number greater than or equal to a minimum (X.691 § 3.7.24).
    SemiConstrained { min: Integer },
    /// A whole number between a minimum and a maximum (X.691 § 3.7.7).
    Constrained { min: Integer, max: Integer },
    /// An unbounded non-negative number which is more likely to be below 64
    /// than not (X.691 § 3.7.19).
    NormallySmall,
}

/// The one value a constrained range admits, if it admits exactly one.
pub open spec fn spec_singular_value(c: WholeNumberConstraint) -> Option<int> {
    match c {
        WholeNumberConstraint::Constrained { min, max } => if min@ == max@ {
            Some(min@)
        } else {
            None
        },
        _ => None,
    }
}

impl WholeNumberConstraint {
    pub fn singular_value(&self) -> (r: Option<&Integer>)
        ensures
            match r {
                Some(v) => spec_singular_value(*self) == Some(v@),
                None => spec_singular_value(*self) is None,
            },
    {
        match self {
            WholeNumberConstraint::Constrained { min, max } => if min.equals(max) {
                Some(min)
            } else {
                None
            },
            _ => None,
        }
    }
}

/// A constrained range the machine can size: the range is non-empty and its
/// bit count fits the word size. Malformed descriptors are schema defects,
/// not wire data, so they are excluded by contract rather than reported.
pub open spec fn spec_constraint_usable(c: WholeNumberConstraint) -> bool {
    match c {
        WholeNumberConstraint::Constrained { min, max } => min@ <= max@ && shift_count(
            max@ - min@,
        ) <= usize::MAX,
        _ => true,
    }
}

// ---------------------------------------------------------------------------
// Spec model of decoding
// ---------------------------------------------------------------------------

/// The outcome of decoding one number from the front of a bit string.
pub enum NumberOutcome {
    /// The `consumed` leading bits encode `value`.
    Taken { consumed: int, value: int },
    /// The input ends `needed` bits too early.
    Incomplete { needed: int },
    /// A huge-length block count outside {1, 2, 3, 4}; `remaining` bits of
    /// input followed the offending group.
    BadBlockCount { remaining: int, value: int },
}

/// The general form of a length determinant (X.691 § 11.9.3.4 through
/// § 11.9.3.8): a flag bit, then 7 bits, 14 bits, or a 6-bit block count
/// standing for `count * 16384`.
pub open spec fn spec_decode_length_general(bits: Seq<bool>) -> NumberOutcome {
    if bits.len() < 1 {
        NumberOutcome::Incomplete { needed: 1 - bits.len() }
    } else if !bits[0] {
        if bits.len() >= 8 {
            NumberOutcome::Taken { consumed: 8, value: unsigned_bits_value(bits.subrange(1, 8)) }
        } else {
            NumberOutcome::Incomplete { needed: 8 - bits.len() }
        }
    } else if bits.len() < 2 {
        NumberOutcome::Incomplete { needed: 1 }
    } else if !bits[1] {
        if bits.len() >= 16 {
            NumberOutcome::Taken { consumed: 16, value: unsigned_bits_value(bits.subrange(2, 16)) }
        } else {
            NumberOutcome::Incomplete { needed: 16 - bits.len() }
        }
    } else {
        if bits.len() >= 8 {
            let block_count = unsigned_bits_value(bits.subrange(2, 8));
            if 1 <= block_count && block_count <= 4 {
                NumberOutcome::Taken { consumed: 8, value: block_count * 16384 }
            } else {
                NumberOutcome::BadBlockCount { remaining: bits.len() - 8, value: block_count }
            }
        } else {
            NumberOutcome::Incomplete { needed: 8 - bits.len() }
        }
    }
}

/// A normally-small non-negative integer (X.691 § 11.6): a flag bit, then
/// either 6 bits, or a length-prefixed whole-octet value.
pub open spec fn spec_decode_normally_small(bits: Seq<bool>) -> NumberOutcome {
    if bits.len() < 1 {
        NumberOutcome::Incomplete { needed: 1 - bits.len() }
    } else if !bits[0] {
        if bits.len() >= 7 {
            NumberOutcome::Taken { consumed: 7, value: unsigned_bits_value(bits.subrange(1, 7)) }
        } else {
            NumberOutcome::Incomplete { needed: 7 - bits.len() }
        }
    } else {
        match spec_decode_length_general(bits.skip(1)) {
            NumberOutcome::Taken { consumed, value } => {
                let start = 1 + consumed;
                let content = 8 * value;
                if bits.len() >= start + content {
                    NumberOutcome::Taken {
                        consumed: start + content,
                        value: unsigned_bits_value(bits.subrange(start, start + content)),
                    }
                } else {
                    NumberOutcome::Incomplete { needed: start + content - bits.len() }
                }
            },
            NumberOutcome::Incomplete { needed } => NumberOutcome::Incomplete { needed },
            NumberOutcome::BadBlockCount { remaining, value } => NumberOutcome::BadBlockCount {
                remaining,
                value,
            },
        }
    }
}

/// A length determinant (X.691 § 11.9.4). A constrained length below 64K is
/// a fixed-width unsigned count, and the raw count is returned without the
/// `min` offset: the length determinant is the count itself, and offsetting
/// is the caller's responsibility for the value it bounds.
pub open spec fn spec_decode_length(bits: Seq<bool>, c: WholeNumberConstraint) -> NumberOutcome {
    match c {
        WholeNumberConstraint::Constrained { min, max } => {
            if min@ == max@ {
                NumberOutcome::Taken { consumed: 0, value: min@ }
            } else if max@ < 65536 {
                let w = shift_count(max@ - min@) as int;
                if bits.len() >= w {
                    NumberOutcome::Taken { consumed: w, value: unsigned_bits_value(bits.take(w)) }
                } else {
                    NumberOutcome::Incomplete { needed: w - bits.len() }
                }
            } else {
                spec_decode_length_general(bits)
            }
        },
        WholeNumberConstraint::NormallySmall => spec_decode_normally_small(bits),
        _ => spec_decode_length_general(bits),
    }
}

/// A length-prefixed integer content: the general length gives an octet
/// count, and the content is read signed (`min` absent) or as an unsigned
/// offset from `min` (X.691 § 11.7, § 11.8).
pub open spec fn spec_decode_octet_int(bits: Seq<bool>, min: Option<int>) -> NumberOutcome {
    match spec_decode_length_general(bits) {
        NumberOutcome::Taken { consumed, value } => {
            let content = 8 * value;
            if bits.len() >= consumed + content {
                let content_bits = bits.subrange(consumed, consumed + content);
                NumberOutcome::Taken {
                    consumed: consumed + content,
                    value: match min {
                        Some(m) => m + unsigned_bits_value(content_bits),
                        None => signed_bits_value(content_bits),
                    },
                }
            } else {
                NumberOutcome::Incomplete { needed: consumed + content - bits.len() }
            }
        },
        NumberOutcome::Incomplete { needed } => NumberOutcome::Incomplete { needed },
        NumberOutcome::BadBlockCount { remaining, value } => NumberOutcome::BadBlockCount {
            remaining,
            value,
        },
    }
}

/// A constrained whole number (X.691 § 11.5): a fixed-width unsigned
/// offset from `min`; a range of one value takes zero bits.
pub open spec fn spec_decode_constrained_int(bits: Seq<bool>, min: int, max: int) -> NumberOutcome {
    if min == max {
        NumberOutcome::Taken { consumed: 0, value: min }
    } else {
        let w = shift_count(max - min) as int;
        if bits.len() >= w {
            NumberOutcome::Taken { consumed: w, value: min + unsigned_bits_value(bits.take(w)) }
        } else {
            NumberOutcome::Incomplete { needed: w - bits.len() }
        }
    }
}

/// An integer under a constraint (X.691 § 13): constrained values are a
/// fixed-width offset from `min`, the others a length-prefixed octet form.
/// Not defined for the normally-small constraint, which X.691 reserves for
/// lengths and enumeration indices.
pub open spec fn spec_decode_integer(bits: Seq<bool>, c: WholeNumberConstraint) -> NumberOutcome {
    match c {
        WholeNumberConstraint::Constrained { min, max } => spec_decode_constrained_int(
            bits,
            min@,
            max@,
        ),
        WholeNumberConstraint::SemiConstrained { min } => spec_decode_octet_int(
            bits,
            Some(min@),
        ),
        _ => spec_decode_octet_int(bits, None),
    }
}

/// The outcome of decoding a byte string from the front of a bit string.
pub enum BytesOutcome {
    /// The `consumed` leading bits encode `bytes`.
    Taken { consumed: int, bytes: Seq<u8> },
    /// The input ends `needed` bits too early.
    Incomplete { needed: int },
    /// A huge-length block count outside {1, 2, 3, 4}.
    BadBlockCount { remaining: int, value: int },
    /// The decoded length does not fit the platform's size type.
    TooLong { remaining: int, value: int },
}

/// A string of `bits_per_byte`-bit groups preceded by its length determinant
/// (X.691 § 17, and § 30.5.3 for the 7-bit IA5 form).
pub open spec fn spec_decode_string(
    bits: Seq<bool>,
    c: WholeNumberConstraint,
    bits_per_byte: int,
) -> BytesOutcome {
    match spec_decode_length(bits, c) {
        NumberOutcome::Taken { consumed, value } => {
            if value < 0 || value > usize::MAX || bits_per_byte * value > usize::MAX {
                BytesOutcome::TooLong { remaining: bits.len() - consumed, value }
            } else {
                let content = bits_per_byte * value;
                if bits.len() >= consumed + content {
                    BytesOutcome::Taken {
                        consumed: consumed + content,
                        bytes: bytes_from_bits(
                            bits.subrange(consumed, consumed + content),
                            bits_per_byte as nat,
                        ),
                    }
                } else {
                    BytesOutcome::Incomplete { needed: consumed + content - bits.len() }
                }
            }
        },
        NumberOutcome::Incomplete { needed } => BytesOutcome::Incomplete { needed },
        NumberOutcome::BadBlockCount { remaining, value } => BytesOutcome::BadBlockCount {
            remaining,
            value,
        },
    }
}

// ---------------------------------------------------------------------------
// Spec model of encoding
// ---------------------------------------------------------------------------

/// The general form of a length determinant, encoding side. A length of
/// 16384 or more is written as its number of whole 16384-bit blocks.
pub open spec fn spec_encode_length_general(v: int) -> Seq<bool> {
    if v <= 127 {
        seq![false] + bits_of_unsigned(v, 7)
    } else if v <= 16383 {
        seq![true, false] + bits_of_unsigned(v, 14)
    } else {
        seq![true, true] + bits_of_unsigned(v / 16384, 6)
    }
}

/// When the general length form can be written: the block count must fit
/// its six bits.
pub open spec fn spec_length_general_encodable(v: int) -> bool {
    0 <= v && (v <= 16383 || v / 16384 < 64)
}

/// The smallest multiple of eight at or above `bits`.
pub open spec fn round_up_to_octet(bits: int) -> int {
    ((bits + 7) / 8) * 8
}

/// The content width of a semi-constrained integer: the minimal bit count
/// of `v - min`, widened to whole octets (X.691 § 11.3.6).
pub open spec fn spec_semi_content_width(min: int, v: int) -> int {
    round_up_to_octet(shift_count(v - min) as int)
}

/// A semi-constrained integer: a length determinant holding the octet
/// count, then the offset from `min` as an unsigned integer.
pub open spec fn spec_encode_semi(min: int, v: int) -> Seq<bool> {
    let w = spec_semi_content_width(min, v);
    spec_encode_length_general(w / 8) + bits_of_unsigned(v - min, w as nat)
}

pub open spec fn spec_semi_encodable(min: int, v: int) -> bool {
    spec_length_general_encodable(spec_semi_content_width(min, v) / 8)
}

/// A normally-small non-negative integer: six bits under a zero flag, else
/// the semi-constrained form with minimum zero under a one flag.
pub open spec fn spec_encode_normally_small(v: int) -> Seq<bool> {
    if v < 64 {
        seq![false] + bits_of_unsigned(v, 6)
    } else {
        seq![true] + spec_encode_semi(0, v)
    }
}

pub open spec fn spec_normally_small_encodable(v: int) -> bool {
    0 <= v && (v < 64 || spec_semi_encodable(0, v))
}

/// The content width of an unconstrained integer: the minimal two's
/// complement width of `v` (one bit more than the magnitude needs, for the
/// sign), widened to whole octets; zero is encoded in zero octets.
pub open spec fn spec_unconstrained_content_width(v: int) -> int {
    if v == 0 {
        0
    } else {
        round_up_to_octet((shift_count(
            if v >= 0 {
                v
            } else {
                -v - 1
            },
        ) + 1) as int)
    }
}

/// An unconstrained integer: a length determinant holding the octet count,
/// then the two's complement of `v`.
pub open spec fn spec_encode_unconstrained(v: int) -> Seq<bool> {
    let w = spec_unconstrained_content_width(v);
    spec_encode_length_general(w / 8) + bits_of_unsigned(v, w as nat)
}

pub open spec fn spec_unconstrained_encodable(v: int) -> bool {
    spec_length_general_encodable(spec_unconstrained_content_width(v) / 8)
}

/// A length determinant, encoding side. A constrained length below 64K is
/// written as the fixed-width offset of the count from `min`.
pub open spec fn spec_encode_length(c: WholeNumberConstraint, v: int) -> Seq<bool> {
    match c {
        WholeNumberConstraint::Constrained { min, max } => if min@ == max@ {
            Seq::empty()
        } else if max@ < 65536 {
            bits_of_unsigned(v - min@, shift_count(max@ - min@))
        } else {
            spec_encode_length_general(v)
        },
        WholeNumberConstraint::NormallySmall => spec_encode_normally_small(v),
        _ => spec_encode_length_general(v),
    }
}

pub open spec fn spec_length_encodable(c: WholeNumberConstraint, v: int) -> bool {
    match c {
        WholeNumberConstraint::Constrained { min, max } => if min@ == max@ {
            v == min@
        } else if max@ < 65536 {
            min@ <= v && v - min@ < pow2(shift_count(max@ - min@))
        } else {
            spec_length_general_encodable(v)
        },
        WholeNumberConstraint::NormallySmall => spec_normally_small_encodable(v),
        _ => spec_length_general_encodable(v),
    }
}

/// Which encoding error `encode_length` reports for an unencodable count.
pub open spec fn spec_length_error_matches(
    c: WholeNumberConstraint,
    v: int,
    e: EncodingError,
) -> bool {
    match e {
        EncodingError::SingleValueIntegerHasWrongValue { expected, obtained } => {
            spec_singular_value(c) == Some(expected@) && obtained@ == v && v != expected@
        },
        EncodingError::NonNegativeIntegerHasNegativeValue { obtained } => {
            match c {
                WholeNumberConstraint::Constrained { min, max } => min@ != max@ && max@ < 65536
                    && v < min@ && obtained@ == v - min@,
                _ => false,
            }
        },
        EncodingError::IntegerDoesNotFitIntoBits { value, bits } => {
            match c {
                WholeNumberConstraint::Constrained { min, max } => if min@ != max@ && max@
                    < 65536 {
                    v - min@ >= pow2(shift_count(max@ - min@)) && value@ == v - min@ && bits
                        == shift_count(max@ - min@)
                } else {
                    min@ != max@ && bits == 6
                },
                _ => bits == 6,
            }
        },
        _ => false,
    }
}

/// An integer under a constraint, encoding side (X.691 § 13).
pub open spec fn spec_encode_integer(c: WholeNumberConstraint, v: int) -> Seq<bool> {
    match c {
        WholeNumberConstraint::Constrained { min, max } => if min@ == max@ {
            Seq::empty()
        } else {
            bits_of_unsigned(v - min@, shift_count(max@ - min@))
        },
        WholeNumberConstraint::SemiConstrained { min } => spec_encode_semi(min@, v),
        _ => spec_encode_unconstrained(v),
    }
}

/// The caller's side of the integer-encoding contract: the value respects
/// the declared range, and the machine can size the content. A singular
/// range is exempt, since a wrong value there is reported as an error.
pub open spec fn spec_encode_integer_preconditions(c: WholeNumberConstraint, v: int) -> bool {
    match c {
        WholeNumberConstraint::Constrained { min, max } => min@ == max@ || (min@ <= v <= max@),
        WholeNumberConstraint::SemiConstrained { min } => min@ <= v && shift_count(v - min@) + 7
            <= usize::MAX,
        WholeNumberConstraint::Unconstrained => shift_count(
            if v >= 0 {
                v
            } else {
                -v - 1
            },
        ) + 8 <= usize::MAX,
        WholeNumberConstraint::NormallySmall => false,
    }
}

/// When `encode_integer` succeeds.
pub open spec fn spec_integer_encodable(c: WholeNumberConstraint, v: int) -> bool {
    match c {
        WholeNumberConstraint::Constrained { min, max } => min@ != max@ || v == min@,
        WholeNumberConstraint::SemiConstrained { min } => spec_semi_encodable(min@, v),
        WholeNumberConstraint::Unconstrained => spec_unconstrained_encodable(v),
        WholeNumberConstraint::NormallySmall => false,
    }
}

// ---------------------------------------------------------------------------
// Bit-cursor utilities
// ---------------------------------------------------------------------------

/// A general length determinant never exceeds 65536 and never consumes more
/// than 16 bits.
proof fn lemma_length_general_bounds(bits: Seq<bool>)
    ensures
        match spec_decode_length_general(bits) {
            NumberOutcome::Taken { consumed, value } => 0 <= value <= 65536 && 8 <= consumed <= 16
                && consumed <= bits.len(),
            _ => true,
        },
{
    vstd::arithmetic::power2::lemma2_to64();
    if bits.len() >= 1 && !bits[0] {
        if bits.len() >= 8 {
            bits::lemma_unsigned_bits_value_bounds(bits.subrange(1, 8));
        }
    } else if bits.len() >= 2 && !bits[1] {
        if bits.len() >= 16 {
            bits::lemma_unsigned_bits_value_bounds(bits.subrange(2, 16));
        }
    } else if bits.len() >= 8 {
        bits::lemma_unsigned_bits_value_bounds(bits.subrange(2, 8));
    }
}

/// A general length determinant, once decoded, consumed at least one bit
/// and no more than the input held.
pub proof fn lemma_general_length_consumes(bits: Seq<bool>)
    ensures
        match spec_decode_length_general(bits) {
            NumberOutcome::Taken { consumed, .. } => 1 <= consumed <= bits.len(),
            _ => true,
        },
{
    lemma_length_general_bounds(bits);
}

/// A length-prefixed integer, once decoded, consumed at least one bit and
/// no more than the input held.
pub proof fn lemma_octet_int_consumes(bits: Seq<bool>, min: Option<int>)
    ensures
        match spec_decode_octet_int(bits, min) {
            NumberOutcome::Taken { consumed, .. } => 1 <= consumed <= bits.len(),
            _ => true,
        },
{
    lemma_length_general_bounds(bits);
}

/// A string under an unconstrained length, once decoded, consumed at least
/// one bit and no more than the input held.
pub proof fn lemma_string_decode_consumes(bits: Seq<bool>, bits_per_byte: int)
    requires
        1 <= bits_per_byte,
    ensures
        match spec_decode_string(bits, WholeNumberConstraint::Unconstrained, bits_per_byte) {
            BytesOutcome::Taken { consumed, .. } => 1 <= consumed <= bits.len(),
            _ => true,
        },
{
    lemma_length_general_bounds(bits);
    match spec_decode_length_general(bits) {
        NumberOutcome::Taken { consumed, value } => {
            assert(bits_per_byte * value >= 0) by (nonlinear_arith)
                requires
                    bits_per_byte >= 1,
                    value >= 0,
            ;
        },
        _ => {},
    }
}

/// Calculates the exact number of bits required to encode the given
/// non-negative value.
#[verifier::loop_isolation(false)]
pub fn bits_required_for_unsigned_value(n: &Integer) -> (r: usize)
    requires
        n@ >= 0,
        shift_count(n@) <= usize::MAX,
    ensures
        r == shift_count(n@),
{
    let zero = Integer::from_short(0);
    let mut my_n = n.clone();
    let mut bits: usize = 0;
    while zero.lt(&my_n)
        invariant
            zero@ == 0,
            my_n@ >= 0,
            shift_count(n@) == bits + shift_count(my_n@),
        decreases my_n@,
    {
        proof {
            assert(shift_count(my_n@) == 1 + shift_count(my_n@ / 2));
        }
        my_n = my_n.half();
        bits = bits + 1;
    }
    bits
}

/// Calculates the minimum number of bits required to distinguish the given
/// number of unique values: `0` for one value, else the bit count of `n - 1`.
pub fn bits_required_for_unique_values(n: &Integer) -> (r: usize)
    requires
        n@ >= 1,
        shift_count(n@ - 1) <= usize::MAX,
    ensures
        r == shift_count(n@ - 1),
{
    let one = Integer::from_short(1);
    bits_required_for_unsigned_value(&n.sub(&one))
}

/// Splits the bit string after `after_length` bits, or reports how many bits
/// are missing.
fn split_at_fallible<'a>(bits: &'a [bool], after_length: usize) -> (r: Result<
    (&'a [bool], &'a [bool]),
    DecodeFailure,
>)
    ensures
        match r {
            Ok((taken, rest)) => bits@.len() >= after_length && taken@ == bits@.take(
                after_length as int,
            ) && rest@ == bits@.skip(after_length as int),
            Err(DecodeFailure::Incomplete { needed }) => bits@.len() < after_length && needed
                == after_length - bits@.len(),
            Err(_) => false,
        },
{
    if bits.len() < after_length {
        Err(DecodeFailure::Incomplete { needed: after_length - bits.len() })
    } else {
        let taken = vstd::slice::slice_subrange(bits, 0, after_length);
        let rest = vstd::slice::slice_subrange(bits, after_length, bits.len());
        proof {
            assert(bits@.subrange(0, after_length as int) =~= bits@.take(after_length as int));
            assert(bits@.subrange(after_length as int, bits@.len() as int) =~= bits@.skip(
                after_length as int,
            ));
        }
        Ok((taken, rest))
    }
}

// ---------------------------------------------------------------------------
// Non-negative and two's-complement binary integers (X.691 § 11.3, § 11.4)
// ---------------------------------------------------------------------------

/// Decodes a non-negative binary integer that occupies the whole bit string
/// (X.691 § 11.3). Variable-size integers carry a separate length prefix.
pub fn decode_nonneg_int_complete<'a>(complete_bits: &'a [bool]) -> (r: ParseResult<'a, Integer>)
    ensures
        match r {
            Ok((rest, v)) => rest@.len() == 0 && v@ == unsigned_bits_value(complete_bits@),
            Err(_) => false,
        },
{
    let ret = Integer::from_bits_unsigned(complete_bits);
    let rest = vstd::slice::slice_subrange(complete_bits, complete_bits.len(), complete_bits.len());
    Ok((rest, ret))
}

/// Decodes a semi-constrained integer that occupies the whole bit string:
/// the unsigned offset from `min` (X.691 § 11.7).
fn decode_semi_constrained_int_complete<'a>(complete_bits: &'a [bool], min: &Integer) -> (r:
    ParseResult<'a, Integer>)
    ensures
        match r {
            Ok((rest, v)) => rest@.len() == 0 && v@ == min@ + unsigned_bits_value(complete_bits@),
            Err(_) => false,
        },
{
    let (rest, integer) = decode_nonneg_int_complete(complete_bits)?;
    Ok((rest, integer.add(min)))
}

/// Decodes a two's-complement integer that occupies the whole bit string
/// (X.691 § 11.4): the first bit carries a negative weight.
pub fn decode_unconstrained_int_complete<'a>(complete_bits: &'a [bool]) -> (r: ParseResult<
    'a,
    Integer,
>)
    ensures
        match r {
            Ok((rest, v)) => rest@.len() == 0 && v@ == signed_bits_value(complete_bits@),
            Err(_) => false,
        },
{
    let ret = Integer::from_bits_signed(complete_bits);
    let rest = vstd::slice::slice_subrange(complete_bits, complete_bits.len(), complete_bits.len());
    Ok((rest, ret))
}

/// Encodes a non-negative binary integer into exactly `bit_count` bits
/// (X.691 § 11.3). Fails, writing nothing, on a negative value or on one
/// that does not fit.
#[must_use]
#[verifier::loop_isolation(false)]
fn encode_nonneg_int(uper_buf: &mut Vec<bool>, value: &Integer, bit_count: usize) -> (r: Result<
    (),
    EncodingError,
>)
    ensures
        match r {
            Ok(()) => 0 <= value@ < pow2(bit_count as nat) && final(uper_buf)@ == old(uper_buf)@
                + bits_of_unsigned(value@, bit_count as nat),
            Err(e) => final(uper_buf)@ == old(uper_buf)@ && match e {
                EncodingError::NonNegativeIntegerHasNegativeValue { obtained } => value@ < 0
                    && obtained@ == value@,
                EncodingError::IntegerDoesNotFitIntoBits { value: v, bits } => value@ >= pow2(
                    bit_count as nat,
                ) && v@ == value@ && bits == bit_count,
                _ => false,
            },
        },
{
    let zero = Integer::from_short(0);
    if value.lt(&zero) {
        return Err(EncodingError::NonNegativeIntegerHasNegativeValue { obtained: value.clone() });
    }
    // shift the value right by `bit_count`: anything left over does not fit
    let mut probe = value.clone();
    let mut k: usize = 0;
    proof {
        vstd::arithmetic::power2::lemma2_to64();
    }
    while k < bit_count
        invariant
            0 <= k <= bit_count,
            value@ >= 0,
            probe@ == value@ / (pow2(k as nat) as int),
        decreases bit_count - k,
    {
        proof {
            vstd::arithmetic::power2::lemma_pow2_pos(k as nat);
            vstd::arithmetic::power2::lemma2_to64();
            vstd::arithmetic::div_mod::lemma_div_denominator(
                value@,
                pow2(k as nat) as int,
                2,
            );
            vstd::arithmetic::power2::lemma_pow2_adds(k as nat, 1);
            vstd::arithmetic::div_mod::lemma_div_pos_is_pos(value@, pow2(k as nat) as int);
        }
        probe = probe.half();
        k += 1;
    }
    proof {
        vstd::arithmetic::power2::lemma_pow2_pos(bit_count as nat);
        vstd::arithmetic::div_mod::lemma_fundamental_div_mod(value@, pow2(bit_count as nat) as int);
        vstd::arithmetic::div_mod::lemma_mod_division_less_than_divisor(
            value@,
            pow2(bit_count as nat) as int,
        );
    }
    if !probe.equals(&zero) {
        proof {
            assert(value@ >= pow2(bit_count as nat)) by (nonlinear_arith)
                requires
                    value@ == pow2(bit_count as nat) * (value@ / pow2(bit_count as nat) as int)
                        + value@ % pow2(bit_count as nat) as int,
                    value@ % pow2(bit_count as nat) as int >= 0,
                    value@ / pow2(bit_count as nat) as int >= 1,
            ;
        }
        return Err(
            EncodingError::IntegerDoesNotFitIntoBits { value: value.clone(), bits: bit_count },
        );
    }
    proof {
        let d = pow2(bit_count as nat) as int;
        assert(value@ == d * (value@ / d) + value@ % d) by {
            vstd::arithmetic::div_mod::lemma_fundamental_div_mod(value@, d);
        }
        assert(d * (value@ / d) == 0) by (nonlinear_arith)
            requires
                value@ / d == 0,
        ;
        assert(value@ < d);
    }
    // collect the bits least significant first
    let mut low_bits: Vec<bool> = Vec::new();
    let mut cur = value.clone();
    let mut j: usize = 0;
    proof {
        vstd::arithmetic::power2::lemma2_to64();
    }
    while j < bit_count
        invariant
            0 <= j <= bit_count,
            value@ >= 0,
            cur@ == value@ / (pow2(j as nat) as int),
            low_bits@.len() == j,
            forall|t: int|
                0 <= t < j ==> low_bits@[t] == (value@ / (pow2(t as nat) as int) % 2 == 1),
        decreases bit_count - j,
    {
        proof {
            vstd::arithmetic::power2::lemma_pow2_pos(j as nat);
            vstd::arithmetic::power2::lemma2_to64();
            vstd::arithmetic::div_mod::lemma_div_pos_is_pos(value@, pow2(j as nat) as int);
            vstd::arithmetic::div_mod::lemma_div_denominator(
                value@,
                pow2(j as nat) as int,
                2,
            );
            vstd::arithmetic::power2::lemma_pow2_adds(j as nat, 1);
        }
        low_bits.push(cur.is_odd());
        cur = cur.half();
        j += 1;
    }
    // write them out most significant first
    let ghost enc = bits_of_unsigned(value@, bit_count as nat);
    proof {
        bits::lemma_bits_of_unsigned_mod(value@, bit_count as nat);
    }
    let mut written: usize = 0;
    while written < bit_count
        invariant
            0 <= written <= bit_count,
            value@ >= 0,
            low_bits@.len() == bit_count,
            forall|t: int|
                0 <= t < bit_count ==> low_bits@[t] == (value@ / (pow2(t as nat) as int) % 2 == 1),
            enc == bits_of_unsigned(value@, bit_count as nat),
            enc.len() == bit_count,
            uper_buf@ == old(uper_buf)@ + enc.take(written as int),
        decreases bit_count - written,
    {
        proof {
            bits::lemma_bits_of_unsigned_index(value@, bit_count as nat, written as int);
            assert(enc.take(written + 1) =~= enc.take(written as int).push(enc[written as int]));
            assert(old(uper_buf)@ + enc.take(written as int).push(enc[written as int]) =~= (old(
                uper_buf,
            )@ + enc.take(written as int)).push(enc[written as int]));
        }
        uper_buf.push(low_bits[bit_count - 1 - written]);
        written += 1;
    }
    proof {
        assert(enc.take(bit_count as int) =~= enc);
    }
    Ok(())
}

// ---------------------------------------------------------------------------
// Constrained whole numbers (X.691 § 11.5)
// ---------------------------------------------------------------------------

/// Decodes a constrained whole number: a fixed-width unsigned offset from
/// `min` (X.691 § 11.5). A range of one value takes zero bits.
fn decode_constrained_int<'a>(bits: &'a [bool], min: &Integer, max: &Integer) -> (r: ParseResult<
    'a,
    Integer,
>)
    requires
        min@ <= max@,
        shift_count(max@ - min@) <= usize::MAX,
    ensures
        ({
            let w = shift_count(max@ - min@) as int;
            match r {
                Ok((rest, v)) => bits@.len() >= w && rest@ == bits@.skip(w) && is_suffix_of(
                    rest@,
                    bits@,
                ) && v@ == min@ + unsigned_bits_value(bits@.take(w)),
                Err(DecodeFailure::Incomplete { needed }) => bits@.len() < w && needed == w
                    - bits@.len(),
                Err(_) => false,
            }
        }),
{
    let one = Integer::from_short(1);
    let range = max.sub(min).add(&one);
    let bit_count = bits_required_for_unique_values(&range);
    let (my_bits, rest) = split_at_fallible(bits, bit_count)?;
    let my_offset = Integer::from_bits_unsigned(my_bits);
    let my_value = my_offset.add(min);
    proof {
        bits::lemma_skip_is_suffix(bits@, bit_count as int);
    }
    Ok((rest, my_value))
}

/// Encodes a constrained whole number: the offset from `min` in exactly as
/// many bits as the range needs (X.691 § 11.5). A value inside the declared
/// range always fits.
#[must_use]
fn encode_constrained_int(
    uper_buf: &mut Vec<bool>,
    min: &Integer,
    max: &Integer,
    value: &Integer,
) -> (r: Result<(), EncodingError>)
    requires
        min@ <= value@ <= max@,
        shift_count(max@ - min@) <= usize::MAX,
    ensures
        r is Ok,
        final(uper_buf)@ == old(uper_buf)@ + bits_of_unsigned(
            value@ - min@,
            shift_count(max@ - min@),
        ),
{
    let one = Integer::from_short(1);
    let range = max.sub(min).add(&one);
    let bit_count = bits_required_for_unique_values(&range);
    let encode_value = value.sub(min);
    proof {
        bits::lemma_shift_count_bound(max@ - min@);
    }
    encode_nonneg_int(uper_buf, &encode_value, bit_count)?;
    Ok(())
}

// ---------------------------------------------------------------------------
// Length determinants (X.691 § 11.9)
// ---------------------------------------------------------------------------

/// Decodes a normally-small non-negative integer (X.691 § 11.6): six bits
/// under a zero flag, else a length-prefixed whole-octet value.
fn decode_normally_small_nonneg_int<'a>(bits: &'a [bool]) -> (r: ParseResult<'a, Integer>)
    ensures
        ({
            let o = spec_decode_normally_small(bits@);
            match r {
                Ok((rest, v)) => (match o {
                    NumberOutcome::Taken { consumed, value } => 0 <= consumed <= bits@.len()
                        && rest@ == bits@.skip(consumed) && is_suffix_of(rest@, bits@) && v@
                        == value,
                    _ => false,
                }),
                Err(DecodeFailure::Incomplete { needed }) => (match o {
                    NumberOutcome::Incomplete { needed: n } => needed == n,
                    _ => false,
                }),
                Err(DecodeFailure::Error(e)) => (match o {
                    NumberOutcome::BadBlockCount { remaining, value } => e.bits_remaining
                        == remaining && (e.kind matches ErrorKind::InvalidHugeLength {
                        value: bv,
                    } && bv@ == value),
                    _ => false,
                }),
            }
        }),
{
    let (is_large, rest) = split_at_fallible(bits, 1)?;
    if is_large[0] {
        // X.691 § 11.6.2 forwards to § 11.7 (semi-constrained integer),
        // with § 11.9 governing the length, which counts octets
        let (rest2, length_integer) = decode_length_general(rest)?;
        proof {
            lemma_length_general_bounds(rest@);
        }
        let length = match length_integer.try_to_usize() {
            Some(l) => l,
            None => vstd::pervasive::unreached(),
        };
        let length_bits = 8 * length;
        let (int_slice, rest3) = split_at_fallible(rest2, length_bits)?;
        let (_, value) = decode_semi_constrained_int_complete(int_slice, &Integer::from_short(0))?;
        proof {
            let k = (match spec_decode_length_general(bits@.skip(1)) {
                NumberOutcome::Taken { consumed, .. } => consumed,
                _ => 0,
            });
            assert(rest2@ =~= bits@.skip(1 + k));
            assert(int_slice@ =~= bits@.subrange(1 + k, 1 + k + 8 * (length as int)));
            assert(rest3@ =~= bits@.skip(1 + k + 8 * (length as int)));
            bits::lemma_skip_is_suffix(bits@, 1 + k + 8 * (length as int));
        }
        Ok((rest3, value))
    } else {
        let (my_bits, rest2) = split_at_fallible(rest, 6)?;
        let my_value = Integer::from_bits_unsigned(my_bits);
        proof {
            assert(my_bits@ =~= bits@.subrange(1, 7));
            assert(rest2@ =~= bits@.skip(7));
            bits::lemma_skip_is_suffix(bits@, 7);
        }
        Ok((rest2, my_value))
    }
}

/// Decodes a length determinant (X.691 § 11.9.4). A constrained length
/// below 64K is a fixed-width unsigned count; the raw count is returned
/// without the `min` offset, which is the caller's to apply to the value it
/// bounds. A one-one flag pair introduces a block count standing for that
/// many 16384-item fragments, whose reassembly is the caller's
/// responsibility.
pub fn decode_length<'a>(bits: &'a [bool], constraint: &WholeNumberConstraint) -> (r: ParseResult<
    'a,
    Integer,
>)
    requires
        spec_constraint_usable(*constraint),
    ensures
        ({
            let o = spec_decode_length(bits@, *constraint);
            match r {
                Ok((rest, v)) => (match o {
                    NumberOutcome::Taken { consumed, value } => 0 <= consumed <= bits@.len()
                        && rest@ == bits@.skip(consumed) && is_suffix_of(rest@, bits@) && v@
                        == value,
                    _ => false,
                }),
                Err(DecodeFailure::Incomplete { needed }) => (match o {
                    NumberOutcome::Incomplete { needed: n } => needed == n,
                    _ => false,
                }),
                Err(DecodeFailure::Error(e)) => (match o {
                    NumberOutcome::BadBlockCount { remaining, value } => e.bits_remaining
                        == remaining && (e.kind matches ErrorKind::InvalidHugeLength {
                        value: bv,
                    } && bv@ == value),
                    _ => false,
                }),
            }
        }),
{
    if let WholeNumberConstraint::Constrained { min, max } = constraint {
        // X.691 § 11.9.4.1
        if min.equals(max) {
            // the length is fixed and encoded in zero bits; just return min
            proof {
                assert(bits@.skip(0) =~= bits@);
                bits::lemma_suffix_reflexive(bits@);
            }
            return Ok((bits, min.clone()));
        }
        let int_64k = Integer::from_short(64 * 1024);
        if max.lt(&int_64k) {
            // non-negative binary integer, minimum length
            let one = Integer::from_short(1);
            let range = max.sub(min).add(&one);
            let bit_count = bits_required_for_unique_values(&range);
            let (int_bits, rest) = split_at_fallible(bits, bit_count)?;
            let (_, value) = decode_nonneg_int_complete(int_bits)?;
            proof {
                bits::lemma_skip_is_suffix(bits@, bit_count as int);
            }
            return Ok((rest, value));
        }
    }
    // X.691 § 11.9.4.2 -> § 11.9.3.4 through 11.9.3.8.4
    if let WholeNumberConstraint::NormallySmall = constraint {
        // § 11.9.3.4
        return decode_normally_small_nonneg_int(bits);
    }
    // the general form
    decode_length_general(bits)
}

/// Decodes the general form of a length determinant (X.691 § 11.9.3.4
/// through § 11.9.3.8): seven bits, fourteen bits, or a block count.
fn decode_length_general<'a>(bits: &'a [bool]) -> (r: ParseResult<'a, Integer>)
    ensures
        ({
            let o = spec_decode_length_general(bits@);
            match r {
                Ok((rest, v)) => (match o {
                    NumberOutcome::Taken { consumed, value } => 0 <= consumed <= bits@.len()
                        && rest@ == bits@.skip(consumed) && is_suffix_of(rest@, bits@) && v@
                        == value,
                    _ => false,
                }),
                Err(DecodeFailure::Incomplete { needed }) => (match o {
                    NumberOutcome::Incomplete { needed: n } => needed == n,
                    _ => false,
                }),
                Err(DecodeFailure::Error(e)) => (match o {
                    NumberOutcome::BadBlockCount { remaining, value } => e.bits_remaining
                        == remaining && (e.kind matches ErrorKind::InvalidHugeLength {
                        value: bv,
                    } && bv@ == value),
                    _ => false,
                }),
            }
        }),
{
    // grab a bit
    let (is_big, rest) = split_at_fallible(bits, 1)?;
    if !is_big[0] {

        // seven bits of unsigned length
        let (my_bits, rest2) = split_at_fallible(rest, 7)?;
        let my_value = Integer::from_bits_unsigned(my_bits);
        proof {
            assert(my_bits@ =~= bits@.subrange(1, 8));
            assert(rest2@ =~= bits@.skip(8));
            bits::lemma_skip_is_suffix(bits@, 8);
        }
        Ok((rest2, my_value))
    } else {
        // take another bit
        let (is_huge, rest2) = split_at_fallible(rest, 1)?;
        if !is_huge[0] {
            // fourteen bits of unsigned length
            let (my_bits, rest3) = split_at_fallible(rest2, 14)?;
            let my_value = Integer::from_bits_unsigned(my_bits);
            proof {
                assert(my_bits@ =~= bits@.subrange(2, 16));
                assert(rest3@ =~= bits@.skip(16));
                bits::lemma_skip_is_suffix(bits@, 16);
            }
            Ok((rest3, my_value))
        } else {
            // an overlong value split into blocks of 16384
            let (my_bits, rest3) = split_at_fallible(rest2, 6)?;
            let my_value = Integer::from_bits_unsigned(my_bits);
            proof {
                assert(my_bits@ =~= bits@.subrange(2, 8));
                assert(rest3@ =~= bits@.skip(8));
                bits::lemma_skip_is_suffix(bits@, 8);
            }
            let one = Integer::from_short(1);
            let four = Integer::from_short(4);
            if my_value.lt(&one) || four.lt(&my_value) {
                Err(
                    DecodeFailure::Error(
                        DecodingError::new(
                            rest3.len(),
                            ErrorKind::InvalidHugeLength { value: my_value },
                        ),
                    ),
                )
            } else {
                Ok((rest3, my_value.mul(&Integer::from_short(16384))))
            }
        }
    }
}

/// Encodes a normally-small non-negative integer (X.691 § 11.6).
#[must_use]
fn encode_normally_small_nonneg_int(uper_buf: &mut Vec<bool>, value: &Integer) -> (r: Result<
    (),
    EncodingError,
>)
    requires
        value@ >= 64 ==> shift_count(value@) + 7 <= usize::MAX,
    ensures
        match r {
            Ok(()) => spec_normally_small_encodable(value@) && final(uper_buf)@ == old(uper_buf)@
                + spec_encode_normally_small(value@),
            Err(e) => final(uper_buf)@ == old(uper_buf)@ && match e {
                EncodingError::NonNegativeIntegerHasNegativeValue { obtained } => value@ < 0
                    && obtained@ == value@,
                EncodingError::IntegerDoesNotFitIntoBits { bits, .. } => value@ >= 64
                    && !spec_semi_encodable(0, value@) && bits == 6,
                _ => false,
            },
        },
{
    proof {
        vstd::arithmetic::power2::lemma2_to64();
    }
    let zero = Integer::from_short(0);
    if value.lt(&zero) {
        return Err(EncodingError::NonNegativeIntegerHasNegativeValue { obtained: value.clone() });
    }
    let too_much_for_six_bits = Integer::from_short(64);
    if value.lt(&too_much_for_six_bits) {
        // announce and encode a small integer
        uper_buf.push(false);
        encode_nonneg_int(uper_buf, value, 6)?;
        proof {
            assert(old(uper_buf)@.push(false) + bits_of_unsigned(value@, 6) =~= old(uper_buf)@ + (
            seq![false] + bits_of_unsigned(value@, 6)));
        }
        Ok(())
    } else {
        // announce a large integer; X.691 § 11.6.2 forwards to § 11.7
        // (semi-constrained integer) with § 11.9 governing the length
        let mut tail: Vec<bool> = Vec::new();
        encode_semi_constrained_int(&mut tail, &zero, value)?;
        uper_buf.push(true);
        uper_buf.append(&mut tail);
        proof {
            assert(old(uper_buf)@.push(true) + spec_encode_semi(0, value@) =~= old(uper_buf)@ + (
            seq![true] + spec_encode_semi(0, value@)));
        }
        Ok(())
    }
}

/// Encodes a length determinant (X.691 § 11.9.4). A length of 16384 or more
/// is always written in the block-count form, even though only one block's
/// worth of content may follow.
#[must_use]
pub fn encode_length(uper_buf: &mut Vec<bool>, constraint: &WholeNumberConstraint, value: usize) -> (r:
    Result<(), EncodingError>)
    requires
        spec_constraint_usable(*constraint),
    ensures
        match r {
            Ok(()) => spec_length_encodable(*constraint, value as int) && final(uper_buf)@ == old(
                uper_buf,
            )@ + spec_encode_length(*constraint, value as int),
            Err(e) => final(uper_buf)@ == old(uper_buf)@ && !spec_length_encodable(
                *constraint,
                value as int,
            ) && spec_length_error_matches(*constraint, value as int, e),
        },
{
    proof {
        vstd::arithmetic::power2::lemma2_to64();
    }
    if let WholeNumberConstraint::Constrained { min, max } = constraint {
        // X.691 § 11.9.4.1
        if min.equals(max) {
            // the length is encoded in zero bits because it is fixed
            let value_int = Integer::from_usize(value);
            if !value_int.equals(min) {
                return Err(
                    EncodingError::SingleValueIntegerHasWrongValue {
                        expected: min.clone(),
                        obtained: value_int,
                    },
                );
            }
            proof {
                assert(old(uper_buf)@ + Seq::<bool>::empty() =~= old(uper_buf)@);
            }
            return Ok(());
        }
        let int_64k = Integer::from_short(64 * 1024);
        if max.lt(&int_64k) {
            // non-negative binary integer, minimum length
            let one = Integer::from_short(1);
            let range = max.sub(min).add(&one);
            let bit_count = bits_required_for_unique_values(&range);
            let offset = Integer::from_usize(value).sub(min);
            encode_nonneg_int(uper_buf, &offset, bit_count)?;
            return Ok(());
        }
    }
    // X.691 § 11.9.4.2 -> § 11.9.3.4 through 11.9.3.8.4
    if let WholeNumberConstraint::NormallySmall = constraint {
        // § 11.9.3.4
        proof {
            bits::lemma_shift_count_le(value as int, 64);
        }
        encode_normally_small_nonneg_int(uper_buf, &Integer::from_usize(value))?;
        return Ok(());
    }
    // the general form
    encode_length_general(uper_buf, value)?;
    Ok(())
}

/// Encodes the general form of a length determinant (X.691 § 11.9.3.4
/// through § 11.9.3.8).
#[must_use]
fn encode_length_general(uper_buf: &mut Vec<bool>, value: usize) -> (r: Result<
    (),
    EncodingError,
>)
    ensures
        match r {
            Ok(()) => spec_length_general_encodable(value as int) && final(uper_buf)@ == old(
                uper_buf,
            )@ + spec_encode_length_general(value as int),
            Err(e) => final(uper_buf)@ == old(uper_buf)@ && !spec_length_general_encodable(
                value as int,
            ) && match e {
                EncodingError::IntegerDoesNotFitIntoBits { value: bv, bits } => bv@ == value
                    / 16384 && bits == 6,
                _ => false,
            },
        },
{
    proof {
        vstd::arithmetic::power2::lemma2_to64();
    }
    if value <= 0x7F {
        // fits in seven bits; encoded as 0LLLLLLL
        uper_buf.push(false);
        encode_nonneg_int(uper_buf, &Integer::from_usize(value), 7)?;
        proof {
            assert(old(uper_buf)@.push(false) + bits_of_unsigned(value as int, 7) =~= old(
                uper_buf,
            )@ + (seq![false] + bits_of_unsigned(value as int, 7)));
        }
        Ok(())
    } else if value <= 0x3FFF {
        // fits in fourteen bits; encoded as 10LLLLLL LLLLLLLL
        uper_buf.push(true);
        uper_buf.push(false);
        encode_nonneg_int(uper_buf, &Integer::from_usize(value), 14)?;
        proof {
            assert(old(uper_buf)@.push(true).push(false) + bits_of_unsigned(value as int, 14) =~= old(
                uper_buf,
            )@ + (seq![true, false] + bits_of_unsigned(value as int, 14)));
        }
        Ok(())
    } else {
        // an overlong value split into blocks of 16384,
        // encoded as 11BBBBBB where the length is B * 16384
        let block_count = value / 16384;
        if block_count >= 64 {
            return Err(
                EncodingError::IntegerDoesNotFitIntoBits {
                    value: Integer::from_usize(block_count),
                    bits: 6,
                },
            );
        }
        uper_buf.push(true);
        uper_buf.push(true);
        encode_nonneg_int(uper_buf, &Integer::from_usize(block_count), 6)?;
        proof {
            assert(old(uper_buf)@.push(true).push(true) + bits_of_unsigned(
                block_count as int,
                6,
            ) =~= old(uper_buf)@ + (seq![true, true] + bits_of_unsigned(block_count as int, 6)));
        }
        Ok(())
    }
}

// ---------------------------------------------------------------------------
// Variable-size integers (X.691 § 11.7, § 11.8, § 13)
// ---------------------------------------------------------------------------

/// Encodes a semi-constrained integer, preceded by its length (X.691
/// § 11.7): the offset from `min` as an unsigned integer in the minimal
/// number of whole octets, per § 11.3.6.
#[must_use]
fn encode_semi_constrained_int(uper_buf: &mut Vec<bool>, min: &Integer, value: &Integer) -> (r:
    Result<(), EncodingError>)
    requires
        value@ >= min@,
        shift_count(value@ - min@) + 7 <= usize::MAX,
    ensures
        match r {
            Ok(()) => spec_semi_encodable(min@, value@) && final(uper_buf)@ == old(uper_buf)@
                + spec_encode_semi(min@, value@),
            Err(e) => final(uper_buf)@ == old(uper_buf)@ && !spec_semi_encodable(min@, value@)
                && match e {
                EncodingError::IntegerDoesNotFitIntoBits { bits, .. } => bits == 6,
                _ => false,
            },
        },
{
    // § 11.7.4: what is encoded is the offset from the minimum,
    // § 11.3.6: in octets, not bits, so the width is rounded up
    let encode_value = value.sub(min);
    let bit_count = bits_required_for_unsigned_value(&encode_value);
    let content_width = ((bit_count + 7) / 8) * 8;
    let byte_count = content_width / 8;
    encode_length_general(uper_buf, byte_count)?;
    proof {
        bits::lemma_shift_count_bound(value@ - min@);
        if bit_count < content_width {
            vstd::arithmetic::power2::lemma_pow2_strictly_increases(
                bit_count as nat,
                content_width as nat,
            );
        }
    }
    encode_nonneg_int(uper_buf, &encode_value, content_width)?;
    proof {
        assert((old(uper_buf)@ + spec_encode_length_general(byte_count as int)) + bits_of_unsigned(
            value@ - min@,
            content_width as nat,
        ) =~= old(uper_buf)@ + (spec_encode_length_general(byte_count as int) + bits_of_unsigned(
            value@ - min@,
            content_width as nat,
        )));
    }
    Ok(())
}

/// Encodes an unconstrained integer, preceded by its length (X.691 § 11.8):
/// the two's complement of the value in the minimal number of whole octets.
/// Zero is encoded in zero octets.
#[must_use]
fn encode_unconstrained_int(uper_buf: &mut Vec<bool>, value: &Integer) -> (r: Result<
    (),
    EncodingError,
>)
    requires
        shift_count(
            if value@ >= 0 {
                value@
            } else {
                -value@ - 1
            },
        ) + 8 <= usize::MAX,
    ensures
        match r {
            Ok(()) => spec_unconstrained_encodable(value@) && final(uper_buf)@ == old(uper_buf)@
                + spec_encode_unconstrained(value@),
            Err(e) => final(uper_buf)@ == old(uper_buf)@ && !spec_unconstrained_encodable(value@)
                && match e {
                EncodingError::IntegerDoesNotFitIntoBits { bits, .. } => bits == 6,
                _ => false,
            },
        },
{
    proof {
        vstd::arithmetic::power2::lemma2_to64();
    }
    let zero = Integer::from_short(0);
    let one = Integer::from_short(1);
    if value.lt(&zero) {
        // the two's complement of a negative value: one sign bit more than
        // the magnitude of (-value) - 1 needs, rounded up to whole octets
        let positive_minus_one = value.neg().sub(&one);
        let bit_count = bits_required_for_unsigned_value(&positive_minus_one);
        let content_width = ((bit_count + 1 + 7) / 8) * 8;
        let byte_count = content_width / 8;
        encode_length_general(uper_buf, byte_count)?;
        let shifted = Integer::power_of_two(content_width).add(value);
        proof {
            bits::lemma_shift_count_bound(-value@ - 1);
            vstd::arithmetic::power2::lemma_pow2_unfold(content_width as nat);
            if bit_count < content_width - 1 {
                vstd::arithmetic::power2::lemma_pow2_strictly_increases(
                    bit_count as nat,
                    (content_width - 1) as nat,
                );
            }
        }
        encode_nonneg_int(uper_buf, &shifted, content_width)?;
        proof {
            bits::lemma_bits_of_unsigned_period(value@, content_width as nat);
            assert((old(uper_buf)@ + spec_encode_length_general(byte_count as int))
                + bits_of_unsigned(value@, content_width as nat) =~= old(uper_buf)@ + (
            spec_encode_length_general(byte_count as int) + bits_of_unsigned(
                value@,
                content_width as nat,
            )));
        }
        Ok(())
    } else {
        let bit_count = bits_required_for_unsigned_value(value);
        if bit_count == 0 {
            // zero is encoded in zero octets
            encode_length_general(uper_buf, 0)?;
            proof {
                assert(value@ == 0);
                assert((old(uper_buf)@ + spec_encode_length_general(0)) + bits_of_unsigned(
                    value@,
                    0,
                ) =~= old(uper_buf)@ + (spec_encode_length_general(0) + bits_of_unsigned(
                    value@,
                    0,
                )));
            }
            return Ok(());
        }
        // one sign bit more than the magnitude needs, rounded up to octets
        let content_width = ((bit_count + 1 + 7) / 8) * 8;
        let byte_count = content_width / 8;
        encode_length_general(uper_buf, byte_count)?;
        proof {
            bits::lemma_shift_count_bound(value@);
            if bit_count < content_width {
                vstd::arithmetic::power2::lemma_pow2_strictly_increases(
                    bit_count as nat,
                    content_width as nat,
                );
            }
        }
        encode_nonneg_int(uper_buf, value, content_width)?;
        proof {
            assert((old(uper_buf)@ + spec_encode_length_general(byte_count as int))
                + bits_of_unsigned(value@, content_width as nat) =~= old(uper_buf)@ + (
            spec_encode_length_general(byte_count as int) + bits_of_unsigned(
                value@,
                content_width as nat,
            )));
        }
        Ok(())
    }
}

/// Decodes an integer under a constraint (X.691 § 13): constrained values
/// are a fixed-width offset, semi-constrained and unconstrained values a
/// length-prefixed octet string of content. The normally-small form is
/// reserved for lengths and enumeration indices and is excluded here.
pub fn decode_integer<'a>(bits: &'a [bool], constraint: &WholeNumberConstraint) -> (r: ParseResult<
    'a,
    Integer,
>)
    requires
        spec_constraint_usable(*constraint),
        !(constraint matches WholeNumberConstraint::NormallySmall),
    ensures
        ({
            let o = spec_decode_integer(bits@, *constraint);
            match r {
                Ok((rest, v)) => (match o {
                    NumberOutcome::Taken { consumed, value } => 0 <= consumed <= bits@.len()
                        && rest@ == bits@.skip(consumed) && is_suffix_of(rest@, bits@) && v@
                        == value,
                    _ => false,
                }),
                Err(DecodeFailure::Incomplete { needed }) => (match o {
                    NumberOutcome::Incomplete { needed: n } => needed == n,
                    _ => false,
                }),
                Err(DecodeFailure::Error(e)) => (match o {
                    NumberOutcome::BadBlockCount { remaining, value } => e.bits_remaining
                        == remaining && (e.kind matches ErrorKind::InvalidHugeLength {
                        value: bv,
                    } && bv@ == value),
                    _ => false,
                }),
            }
        }),
{
    match constraint {
        WholeNumberConstraint::Constrained { min, max } => {
            // definite length: no prefix, just the offset bits
            if min.equals(max) {
                proof {
                    assert(bits@.skip(0) =~= bits@);
                    bits::lemma_suffix_reflexive(bits@);
                }
                return Ok((bits, min.clone()));
            }
            decode_constrained_int(bits, min, max)
        },
        WholeNumberConstraint::SemiConstrained { .. } | WholeNumberConstraint::Unconstrained => {
            // indefinite length: a length determinant counts the octets
            let (rest, length_integer) = decode_length_general(bits)?;
            proof {
                lemma_length_general_bounds(bits@);
            }
            let length_octets = match length_integer.try_to_usize() {
                Some(l) => l,
                None => vstd::pervasive::unreached(),
            };
            let length_bits = 8 * length_octets;
            let (integer_bits, rest2) = split_at_fallible(rest, length_bits)?;
            let integer = match constraint {
                WholeNumberConstraint::SemiConstrained { min } => Integer::from_bits_unsigned(
                    integer_bits,
                ).add(min),
                _ => Integer::from_bits_signed(integer_bits),
            };
            proof {
                let k = (match spec_decode_length_general(bits@) {
                    NumberOutcome::Taken { consumed, .. } => consumed,
                    _ => 0,
                });
                assert(integer_bits@ =~= bits@.subrange(k, k + 8 * (length_octets as int)));
                assert(rest2@ =~= bits@.skip(k + 8 * (length_octets as int)));
                bits::lemma_skip_is_suffix(bits@, k + 8 * (length_octets as int));
            }
            Ok((rest2, integer))
        },
        WholeNumberConstraint::NormallySmall => vstd::pervasive::unreached(),
    }
}

/// Encodes an integer under a constraint (X.691 § 13). A singular range
/// (min = max) takes zero bits, and a value other than the singular one is
/// an error; the other shapes follow § 11.5, § 11.7 and § 11.8.
#[must_use]
pub fn encode_integer(
    uper_buf: &mut Vec<bool>,
    constraint: &WholeNumberConstraint,
    value: &Integer,
) -> (r: Result<(), EncodingError>)
    requires
        spec_constraint_usable(*constraint),
        spec_encode_integer_preconditions(*constraint, value@),
    ensures
        match r {
            Ok(()) => spec_integer_encodable(*constraint, value@) && final(uper_buf)@ == old(
                uper_buf,
            )@ + spec_encode_integer(*constraint, value@),
            Err(e) => final(uper_buf)@ == old(uper_buf)@ && match e {
                EncodingError::SingleValueIntegerHasWrongValue { expected, obtained } => {
                    spec_singular_value(*constraint) == Some(expected@) && value@ != expected@
                        && obtained@ == value@
                },
                EncodingError::IntegerDoesNotFitIntoBits { bits, .. } => {
                    spec_singular_value(*constraint) is None && !spec_integer_encodable(
                        *constraint,
                        value@,
                    ) && bits == 6
                },
                _ => false,
            },
        },
{
    // § 13.2.1: a singular range encodes to nothing, and only its one value
    let is_singular = match constraint.singular_value() {
        Some(singular) => {
            if !value.equals(singular) {
                return Err(
                    EncodingError::SingleValueIntegerHasWrongValue {
                        expected: singular.clone(),
                        obtained: value.clone(),
                    },
                );
            }
            true
        },
        None => false,
    };
    if is_singular {
        proof {
            assert(old(uper_buf)@ + Seq::<bool>::empty() =~= old(uper_buf)@);
        }
        return Ok(());
    }
    match constraint {
        WholeNumberConstraint::Constrained { min, max } => {
            // § 13.2.2
            encode_constrained_int(uper_buf, min, max, value)?;
        },
        WholeNumberConstraint::SemiConstrained { min } => {
            // § 13.2.3
            encode_semi_constrained_int(uper_buf, min, value)?;
        },
        WholeNumberConstraint::Unconstrained => {
            // § 13.2.4
            encode_unconstrained_int(uper_buf, value)?;
        },
        WholeNumberConstraint::NormallySmall => {
            return vstd::pervasive::unreached();
        },
    }
    Ok(())
}

/// Returns whether a value with the given length is fragmented into
/// multiple pieces: such a length is a whole number of 16384-item blocks
/// (X.691 § 11.9.3.8).
pub fn value_with_length_is_fragmented(length: &Integer) -> (r: bool)
    ensures
        r == (length@ == 16384 || length@ == 32768 || length@ == 49152 || length@ == 65536),
{
    length.equals(&Integer::from_short(1 * 16384)) || length.equals(&Integer::from_short(2 * 16384))
        || length.equals(&Integer::from_short(3 * 16384)) || length.equals(
        &Integer::from_short(4 * 16384),
    )
}

// ---------------------------------------------------------------------------
// Booleans and bit runs (X.691 § 12, § 19.2)
// ---------------------------------------------------------------------------

/// Decodes a boolean value: exactly one bit (X.691 § 12).
pub fn decode_bool<'a>(bits: &'a [bool]) -> (r: ParseResult<'a, bool>)
    ensures
        match r {
            Ok((rest, v)) => bits@.len() >= 1 && rest@ == bits@.skip(1) && is_suffix_of(
                rest@,
                bits@,
            ) && v == bits@[0],
            Err(DecodeFailure::Incomplete { needed }) => bits@.len() == 0 && needed == 1,
            Err(_) => false,
        },
{
    let (value, rest) = split_at_fallible(bits, 1)?;
    proof {
        bits::lemma_skip_is_suffix(bits@, 1);
    }
    Ok((rest, value[0]))
}

/// Encodes a boolean value: exactly one bit (X.691 § 12).
pub fn encode_bool(uper_buf: &mut Vec<bool>, value: bool)
    ensures
        final(uper_buf)@ == old(uper_buf)@ + seq![value],
{
    uper_buf.push(value);
    proof {
        assert(uper_buf@ =~= old(uper_buf)@ + seq![value]);
    }
}

/// Decodes a run of `count` raw bits, uninterpreted, as used for the
/// optional-presence bit fields of a SEQUENCE (X.691 § 19.2).
pub fn decode_bools<'a>(bits: &'a [bool], count: usize) -> (r: ParseResult<'a, &'a [bool]>)
    ensures
        match r {
            Ok((rest, v)) => bits@.len() >= count && v@ == bits@.take(count as int) && rest@
                == bits@.skip(count as int) && is_suffix_of(rest@, bits@),
            Err(DecodeFailure::Incomplete { needed }) => bits@.len() < count && needed == count
                - bits@.len(),
            Err(_) => false,
        },
{
    let (value, rest) = split_at_fallible(bits, count)?;
    proof {
        bits::lemma_skip_is_suffix(bits@, count as int);
    }
    Ok((rest, value))
}

// ---------------------------------------------------------------------------
// Octet strings and IA5 strings (X.691 § 17, § 30.5.3)
// ---------------------------------------------------------------------------

/// Appends the `width`-bit encoding of one byte that fits it.
fn push_byte_bits(uper_buf: &mut Vec<bool>, byte: u8, width: usize)
    requires
        (byte as int) < pow2(width as nat),
    ensures
        final(uper_buf)@ == old(uper_buf)@ + bits_of_unsigned(byte as int, width as nat),
{
    let r = encode_nonneg_int(uper_buf, &Integer::from_short(byte as i128), width);
    match r {
        Ok(()) => {},
        Err(_) => {
            proof {
                assert(false);
            }
        },
    }
}

/// Decodes a slice of whole `bits_per_byte`-bit groups to bytes, each group
/// most significant bit first.
#[verifier::loop_isolation(false)]
fn bits_to_bytes(bits: &[bool], bits_per_byte: usize) -> (r: Vec<u8>)
    requires
        1 <= bits_per_byte <= 8,
        (bits@.len() as int) % (bits_per_byte as int) == 0,
    ensures
        r@ == bytes_from_bits(bits@, bits_per_byte as nat),
{
    proof {
        vstd::arithmetic::power2::lemma2_to64();
    }
    let mut ret: Vec<u8> = Vec::new();
    let mut idx: usize = 0;
    proof {
        assert(bits@.skip(0) =~= bits@);
        assert(Seq::<u8>::empty() + bytes_from_bits(bits@, bits_per_byte as nat)
            =~= bytes_from_bits(bits@, bits_per_byte as nat));
    }
    while idx < bits.len()
        invariant
            0 <= idx <= bits@.len(),
            (idx as int) % (bits_per_byte as int) == 0,
            bytes_from_bits(bits@, bits_per_byte as nat) == ret@ + bytes_from_bits(
                bits@.skip(idx as int),
                bits_per_byte as nat,
            ),
        decreases bits@.len() - idx,
    {
        proof {
            vstd::arithmetic::div_mod::lemma_mod_adds(
                idx as int,
                bits@.len() - idx,
                bits_per_byte as int,
            );
            if bits@.len() - idx < bits_per_byte {
                vstd::arithmetic::div_mod::lemma_small_mod(
                    (bits@.len() - idx) as nat,
                    bits_per_byte as nat,
                );
            }
        }
        let mut acc: u8 = 0;
        let mut j: usize = 0;
        while j < bits_per_byte
            invariant
                0 <= j <= bits_per_byte,
                idx + bits_per_byte <= bits@.len(),
                acc == unsigned_bits_value(bits@.subrange(idx as int, idx + j)),
                acc < pow2(j as nat),
            decreases bits_per_byte - j,
        {
            proof {
                assert(bits@.subrange(idx as int, idx + j + 1).drop_last() =~= bits@.subrange(
                    idx as int,
                    idx + j,
                ));
                vstd::arithmetic::power2::lemma_pow2_unfold((j + 1) as nat);
            }
            acc = 2 * acc + if bits[idx + j] {
                1
            } else {
                0
            };
            j += 1;
        }
        ret.push(acc);
        let ghost prev = idx as int;
        idx += bits_per_byte;
        proof {
            vstd::arithmetic::div_mod::lemma_mod_add_multiples_vanish(prev, bits_per_byte as int);
            assert(bits@.skip(prev).take(bits_per_byte as int) =~= bits@.subrange(
                prev,
                prev + bits_per_byte,
            ));
            assert(bits@.skip(prev).skip(bits_per_byte as int) =~= bits@.skip(idx as int));
            assert(ret@ + bytes_from_bits(bits@.skip(idx as int), bits_per_byte as nat) =~= (
            ret@.drop_last() + seq![acc]) + bytes_from_bits(
                bits@.skip(idx as int),
                bits_per_byte as nat,
            ));
            assert(seq![acc] + bytes_from_bits(bits@.skip(idx as int), bits_per_byte as nat)
                =~= bytes_from_bits(bits@.skip(prev), bits_per_byte as nat));
            assert(ret@.drop_last() + (seq![acc] + bytes_from_bits(
                bits@.skip(idx as int),
                bits_per_byte as nat,
            )) =~= (ret@.drop_last() + seq![acc]) + bytes_from_bits(
                bits@.skip(idx as int),
                bits_per_byte as nat,
            ));
        }
    }
    proof {
        assert(bits@.skip(bits@.len() as int) =~= Seq::<bool>::empty());
        assert(ret@ + Seq::<u8>::empty() =~= ret@);
    }
    ret
}

/// Decodes an octet string: a length determinant counting octets, then that
/// many 8-bit groups (X.691 § 17).
pub fn decode_octet_string<'a>(bits: &'a [bool], length_constraint: &WholeNumberConstraint) -> (r:
    ParseResult<'a, Vec<u8>>)
    requires
        spec_constraint_usable(*length_constraint),
    ensures
        ({
            let o = spec_decode_string(bits@, *length_constraint, 8);
            match r {
                Ok((rest, v)) => (match o {
                    BytesOutcome::Taken { consumed, bytes } => 0 <= consumed <= bits@.len()
                        && rest@ == bits@.skip(consumed) && is_suffix_of(rest@, bits@) && v@
                        == bytes,
                    _ => false,
                }),
                Err(DecodeFailure::Incomplete { needed }) => (match o {
                    BytesOutcome::Incomplete { needed: n } => needed == n,
                    _ => false,
                }),
                Err(DecodeFailure::Error(e)) => (match o {
                    BytesOutcome::BadBlockCount { remaining, value } => e.bits_remaining
                        == remaining && (e.kind matches ErrorKind::InvalidHugeLength {
                        value: bv,
                    } && bv@ == value),
                    BytesOutcome::TooLong { remaining, value } => e.bits_remaining == remaining
                        && (e.kind matches ErrorKind::LengthValueNotUsize { value: lv } && lv@
                        == value),
                    _ => false,
                }),
            }
        }),
{
    decode_string(bits, length_constraint, 8)
}

/// Decodes an IA5 string: a length determinant counting characters, then
/// that many 7-bit groups (X.691 § 17 with § 30.5.3). Whether the bytes
/// form valid UTF-8 is the caller's concern.
pub fn decode_ia5_string<'a>(bits: &'a [bool], length_constraint: &WholeNumberConstraint) -> (r:
    ParseResult<'a, Vec<u8>>)
    requires
        spec_constraint_usable(*length_constraint),
    ensures
        ({
            let o = spec_decode_string(bits@, *length_constraint, 7);
            match r {
                Ok((rest, v)) => (match o {
                    BytesOutcome::Taken { consumed, bytes } => 0 <= consumed <= bits@.len()
                        && rest@ == bits@.skip(consumed) && is_suffix_of(rest@, bits@) && v@
                        == bytes,
                    _ => false,
                }),
                Err(DecodeFailure::Incomplete { needed }) => (match o {
                    BytesOutcome::Incomplete { needed: n } => needed == n,
                    _ => false,
                }),
                Err(DecodeFailure::Error(e)) => (match o {
                    BytesOutcome::BadBlockCount { remaining, value } => e.bits_remaining
                        == remaining && (e.kind matches ErrorKind::InvalidHugeLength {
                        value: bv,
                    } && bv@ == value),
                    BytesOutcome::TooLong { remaining, value } => e.bits_remaining == remaining
                        && (e.kind matches ErrorKind::LengthValueNotUsize { value: lv } && lv@
                        == value),
                    _ => false,
                }),
            }
        }),
{
    decode_string(bits, length_constraint, 7)
}

/// The shared body of the two string decoders.
#[verifier::rlimit(50)]
fn decode_string<'a>(
    bits: &'a [bool],
    length_constraint: &WholeNumberConstraint,
    bits_per_byte: usize,
) -> (r: ParseResult<'a, Vec<u8>>)
    requires
        spec_constraint_usable(*length_constraint),
        1 <= bits_per_byte <= 8,
    ensures
        ({
            let o = spec_decode_string(bits@, *length_constraint, bits_per_byte as int);
            match r {
                Ok((rest, v)) => (match o {
                    BytesOutcome::Taken { consumed, bytes } => 0 <= consumed <= bits@.len()
                        && rest@ == bits@.skip(consumed) && is_suffix_of(rest@, bits@) && v@
                        == bytes,
                    _ => false,
                }),
                Err(DecodeFailure::Incomplete { needed }) => (match o {
                    BytesOutcome::Incomplete { needed: n } => needed == n,
                    _ => false,
                }),
                Err(DecodeFailure::Error(e)) => (match o {
                    BytesOutcome::BadBlockCount { remaining, value } => e.bits_remaining
                        == remaining && (e.kind matches ErrorKind::InvalidHugeLength {
                        value: bv,
                    } && bv@ == value),
                    BytesOutcome::TooLong { remaining, value } => e.bits_remaining == remaining
                        && (e.kind matches ErrorKind::LengthValueNotUsize { value: lv } && lv@
                        == value),
                    _ => false,
                }),
            }
        }),
{
    let (rest, length_integer) = decode_length(bits, length_constraint)?;
    let length_bytes = match length_integer.try_to_usize() {
        Some(l) => l,
        None => {
            return Err(
                DecodeFailure::Error(
                    DecodingError::new(
                        rest.len(),
                        ErrorKind::LengthValueNotUsize { value: length_integer },
                    ),
                ),
            );
        },
    };
    let length_bits = match bits_per_byte.checked_mul(length_bytes) {
        Some(n) => n,
        None => {
            return Err(
                DecodeFailure::Error(
                    DecodingError::new(
                        rest.len(),
                        ErrorKind::LengthValueNotUsize { value: length_integer },
                    ),
                ),
            );
        },
    };
    let (content_bits, rest2) = split_at_fallible(rest, length_bits)?;
    proof {
        assert((bits_per_byte as int) * (length_bytes as int) == (length_bytes as int) * (
        bits_per_byte as int)) by (nonlinear_arith);
        vstd::arithmetic::div_mod::lemma_mod_multiples_basic(
            length_bytes as int,
            bits_per_byte as int,
        );
    }
    let ret = bits_to_bytes(content_bits, bits_per_byte);
    proof {
        let k = (match spec_decode_length(bits@, *length_constraint) {
            NumberOutcome::Taken { consumed, .. } => consumed,
            _ => 0,
        });
        assert(content_bits@ =~= bits@.subrange(k, k + length_bits));
        assert(rest2@ =~= bits@.skip(k + length_bits));
        bits::lemma_skip_is_suffix(bits@, k + length_bits);
    }
    Ok((rest2, ret))
}

/// Encodes an octet string: its length determinant, then eight bits per
/// byte (X.691 § 17).
#[must_use]
#[verifier::loop_isolation(false)]
pub fn encode_octet_string(
    uper_buf: &mut Vec<bool>,
    length_constraint: &WholeNumberConstraint,
    value: &[u8],
) -> (r: Result<(), EncodingError>)
    requires
        spec_constraint_usable(*length_constraint),
    ensures
        match r {
            Ok(()) => spec_length_encodable(*length_constraint, value@.len() as int) && final(uper_buf)@ == old(uper_buf)@ + spec_encode_length(*length_constraint, value@.len() as int)
                + bits_of_bytes(value@, 8),
            Err(e) => final(uper_buf)@ == old(uper_buf)@ && !spec_length_encodable(
                *length_constraint,
                value@.len() as int,
            ) && spec_length_error_matches(*length_constraint, value@.len() as int, e),
        },
{
    proof {
        vstd::arithmetic::power2::lemma2_to64();
    }
    encode_length(uper_buf, length_constraint, value.len())?;
    let ghost prefix = old(uper_buf)@ + spec_encode_length(*length_constraint, value@.len() as int);
    let mut i: usize = 0;
    while i < value.len()
        invariant
            0 <= i <= value@.len(),
            uper_buf@ == prefix + bits_of_bytes(value@.take(i as int), 8),
        decreases value@.len() - i,
    {
        push_byte_bits(uper_buf, value[i], 8);
        proof {
            bits::lemma_bits_of_bytes_snoc(value@.take(i as int), value@[i as int], 8);
            assert(value@.take(i + 1) =~= value@.take(i as int).push(value@[i as int]));
            assert(prefix + (bits_of_bytes(value@.take(i as int), 8) + bits_of_unsigned(
                value@[i as int] as int,
                8,
            )) =~= (prefix + bits_of_bytes(value@.take(i as int), 8)) + bits_of_unsigned(
                value@[i as int] as int,
                8,
            ));
        }
        i += 1;
    }
    proof {
        assert(value@.take(value@.len() as int) =~= value@);
    }
    Ok(())
}

/// Encodes an IA5 string: its length determinant, then seven bits per byte
/// (X.691 § 17 with § 30.5.3). A byte with its top bit set is rejected,
/// naming its index, before anything is written.
#[must_use]
#[verifier::loop_isolation(false)]
pub fn encode_ia5_string(
    uper_buf: &mut Vec<bool>,
    length_constraint: &WholeNumberConstraint,
    value: &str,
) -> (r: Result<(), EncodingError>)
    requires
        spec_constraint_usable(*length_constraint),
    ensures
        ({
            let bytes = value.spec_bytes();
            match r {
                Ok(()) => spec_length_encodable(*length_constraint, bytes.len() as int) && (forall|
                    i: int,
                |
                    0 <= i < bytes.len() ==> bytes[i] < 128) && final(uper_buf)@ == old(uper_buf)@
                    + spec_encode_length(*length_constraint, bytes.len() as int) + bits_of_bytes(
                    bytes,
                    7,
                ),
                Err(e) => final(uper_buf)@ == old(uper_buf)@ && match e {
                    EncodingError::Ia5ByteHasTopBitSet { string, byte_index } => string@ == value@
                        && 0 <= byte_index < bytes.len() && bytes[byte_index as int] >= 128 && (
                    forall|j: int| 0 <= j < byte_index ==> bytes[j] < 128),
                    _ => !spec_length_encodable(*length_constraint, bytes.len() as int)
                        && spec_length_error_matches(*length_constraint, bytes.len() as int, e) && (
                    forall|i: int| 0 <= i < bytes.len() ==> bytes[i] < 128),
                },
            }
        }),
{
    proof {
        vstd::arithmetic::power2::lemma2_to64();
    }
    let bytes: &[u8] = value.as_bytes();
    // the top bit must not be set anywhere
    let mut i: usize = 0;
    while i < bytes.len()
        invariant
            0 <= i <= bytes@.len(),
            forall|j: int| 0 <= j < i ==> bytes@[j] < 128,
        decreases bytes@.len() - i,
    {
        if bytes[i] >= 128 {
            return Err(
                EncodingError::Ia5ByteHasTopBitSet { string: str_to_owned(value), byte_index: i },
            );
        }
        i += 1;
    }
    encode_length(uper_buf, length_constraint, bytes.len())?;
    let ghost prefix = old(uper_buf)@ + spec_encode_length(
        *length_constraint,
        value.spec_bytes().len() as int,
    );
    let mut k: usize = 0;
    while k < bytes.len()
        invariant
            0 <= k <= bytes@.len(),
            forall|j: int| 0 <= j < bytes@.len() ==> bytes@[j] < 128,
            uper_buf@ == prefix + bits_of_bytes(bytes@.take(k as int), 7),
        decreases bytes@.len() - k,
    {
        push_byte_bits(uper_buf, bytes[k], 7);
        proof {
            bits::lemma_bits_of_bytes_snoc(bytes@.take(k as int), bytes@[k as int], 7);
            assert(bytes@.take(k + 1) =~= bytes@.take(k as int).push(bytes@[k as int]));
            assert(prefix + (bits_of_bytes(bytes@.take(k as int), 7) + bits_of_unsigned(
                bytes@[k as int] as int,
                7,
            )) =~= (prefix + bits_of_bytes(bytes@.take(k as int), 7)) + bits_of_unsigned(
                bytes@[k as int] as int,
                7,
            ));
        }
        k += 1;
    }
    proof {
        assert(bytes@.take(bytes@.len() as int) =~= bytes@);
    }
    Ok(())
}

/// Relies on `str::to_string`: the copy holds the same characters.
#[verifier::external_body]
fn str_to_owned(s: &str) -> (r: String)
    ensures
        r@ == s@,
{
    s.to_string()
}

/// Relies on `String::from_utf8`: it succeeds exactly on valid UTF-8 input
/// and decodes it; rejected bytes are handed back unchanged.
#[verifier::external_body]
fn string_from_utf8(bytes: Vec<u8>) -> (r: Result<String, Vec<u8>>)
    ensures
        match r {
            Ok(s) => vstd::utf8::valid_utf8(bytes@) && s@ == vstd::utf8::decode_utf8(bytes@),
            Err(b) => !vstd::utf8::valid_utf8(bytes@) && b@ == bytes@,
        },
{
    String::from_utf8(bytes).map_err(|e| e.into_bytes())
}

/// Attempts to convert an octet string into a UTF-8 string, charging a
/// failure to the given remaining input.
pub fn octet_string_to_utf8<'a>(rest: &'a [bool], octet_string: Vec<u8>) -> (r: ParseResult<
    'a,
    String,
>)
    ensures
        match r {
            Ok((rest2, s)) => rest2@ == rest@ && vstd::utf8::valid_utf8(octet_string@) && s@
                == vstd::utf8::decode_utf8(octet_string@),
            Err(DecodeFailure::Error(e)) => !vstd::utf8::valid_utf8(octet_string@)
                && e.bits_remaining == rest@.len() && (e.kind matches ErrorKind::InvalidUtf8String {
                bytes,
            } && bytes@ == octet_string@),
            Err(_) => false,
        },
{
    match string_from_utf8(octet_string) {
        Ok(s) => Ok((rest, s)),
        Err(bytes) => Err(
            DecodeFailure::Error(
                DecodingError::new(rest.len(), ErrorKind::InvalidUtf8String { bytes }),
            ),
        ),
    }
}

// ---------------------------------------------------------------------------
// Byte/bit conversion, most significant bit first
// ---------------------------------------------------------------------------

/// Converts a slice of bytes to a vector of bits, most significant bit of
/// each byte first.
pub fn to_bits_msb_first(bytes: &[u8]) -> (r: Vec<bool>)
    ensures
        r@ == bits_of_bytes(bytes@, 8),
{
    proof {
        vstd::arithmetic::power2::lemma2_to64();
    }
    let mut ret: Vec<bool> = Vec::new();
    let mut i: usize = 0;
    while i < bytes.len()
        invariant
            0 <= i <= bytes@.len(),
            ret@ == bits_of_bytes(bytes@.take(i as int), 8),
        decreases bytes@.len() - i,
    {
        proof {
            vstd::arithmetic::power2::lemma2_to64();
        }
        push_byte_bits(&mut ret, bytes[i], 8);
        proof {
            bits::lemma_bits_of_bytes_snoc(bytes@.take(i as int), bytes@[i as int], 8);
            assert(bytes@.take(i + 1) =~= bytes@.take(i as int).push(bytes@[i as int]));
        }
        i += 1;
    }
    proof {
        assert(bytes@.take(bytes@.len() as int) =~= bytes@);
    }
    ret
}

/// Converts a slice of bits to a vector of bytes, most significant bit of
/// each byte first, zero-padding an incomplete trailing byte.
#[verifier::loop_isolation(false)]
pub fn to_bytes_msb_first(bits: &[bool]) -> (r: Vec<u8>)
    ensures
        r@ == bytes_of_bits_padded(bits@),
{
    proof {
        vstd::arithmetic::power2::lemma2_to64();
    }
    let mut ret: Vec<u8> = Vec::new();
    let mut idx: usize = 0;
    proof {
        assert(bits@.skip(0) =~= bits@);
        assert(Seq::<u8>::empty() + bytes_of_bits_padded(bits@) =~= bytes_of_bits_padded(bits@));
    }
    while idx < bits.len()
        invariant
            0 <= idx <= bits@.len(),
            bytes_of_bits_padded(bits@) == ret@ + bytes_of_bits_padded(bits@.skip(idx as int)),
        decreases bits@.len() - idx,
    {
        let group_len = if bits.len() - idx >= 8 {
            8
        } else {
            bits.len() - idx
        };
        let mut acc: u8 = 0;
        let mut j: usize = 0;
        while j < 8
            invariant
                0 <= j <= 8,
                idx < bits@.len(),
                group_len == if bits@.len() - idx >= 8 {
                    8int
                } else {
                    bits@.len() - idx
                },
                j <= group_len ==> acc == unsigned_bits_value(
                    bits@.subrange(idx as int, idx + j),
                ),
                j > group_len ==> acc == unsigned_bits_value(bits@.subrange(idx as int, idx
                    + group_len)) * pow2((j - group_len) as nat),
                acc < pow2(j as nat),
            decreases 8 - j,
        {
            let bit = if j < group_len {
                bits[idx + j]
            } else {
                false
            };
            proof {
                vstd::arithmetic::power2::lemma_pow2_unfold((j + 1) as nat);
                if j < group_len {
                    assert(bits@.subrange(idx as int, idx + j + 1).drop_last() =~= bits@.subrange(
                        idx as int,
                        idx + j,
                    ));
                } else {
                    let base = unsigned_bits_value(bits@.subrange(idx as int, idx + group_len));
                    bits::lemma_unsigned_bits_value_bounds(
                        bits@.subrange(idx as int, idx + group_len),
                    );
                    vstd::arithmetic::power2::lemma_pow2_adds(
                        group_len as nat,
                        (j - group_len) as nat,
                    );
                    vstd::arithmetic::power2::lemma_pow2_adds(
                        group_len as nat,
                        (j + 1 - group_len) as nat,
                    );
                    vstd::arithmetic::power2::lemma_pow2_unfold((j + 1 - group_len) as nat);
                    assert(2 * (base * pow2((j - group_len) as nat)) == base * pow2(
                        (j + 1 - group_len) as nat,
                    )) by (nonlinear_arith)
                        requires
                            pow2((j + 1 - group_len) as nat) == 2 * pow2((j - group_len) as nat),
                    ;
                    assert(base * pow2((j + 1 - group_len) as nat) < pow2(group_len as nat) * pow2(
                        (j + 1 - group_len) as nat,
                    )) by (nonlinear_arith)
                        requires
                            base < pow2(group_len as nat),
                            pow2((j + 1 - group_len) as nat) > 0,
                    ;
                }
            }
            acc = 2 * acc + if bit {
                1
            } else {
                0
            };
            j += 1;
        }
        ret.push(acc);
        let ghost prev = idx as int;
        idx += group_len;
        proof {
            if bits@.len() - prev >= 8 {
                assert(bits@.skip(prev).take(8) =~= bits@.subrange(prev, prev + 8));
                assert(bits@.skip(prev).skip(8) =~= bits@.skip(idx as int));
                assert(seq![acc] + bytes_of_bits_padded(bits@.skip(idx as int))
                    =~= bytes_of_bits_padded(bits@.skip(prev)));
            } else {
                assert(bits@.skip(prev) =~= bits@.subrange(prev, bits@.len() as int));
                assert(bits@.skip(idx as int) =~= Seq::<bool>::empty());
                assert(seq![acc] + bytes_of_bits_padded(bits@.skip(idx as int))
                    =~= bytes_of_bits_padded(bits@.skip(prev)));
            }
            assert(ret@.drop_last() + (seq![acc] + bytes_of_bits_padded(bits@.skip(idx as int)))
                =~= (ret@.drop_last() + seq![acc]) + bytes_of_bits_padded(bits@.skip(idx as int)));
            assert(ret@ =~= ret@.drop_last() + seq![acc]);
        }
    }
    proof {
        assert(bits@.skip(bits@.len() as int) =~= Seq::<bool>::empty());
        assert(ret@ + Seq::<u8>::empty() =~= ret@);
    }
    ret
}

} // verus!
