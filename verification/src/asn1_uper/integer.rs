//! Arbitrary-size integers for ASN.1.

use vstd::prelude::*;
use vstd::arithmetic::power2::{pow2, lemma_pow2_unfold};
use crate::asn1_uper::bigint::{
    bigint_value, bigint_from_i128, bigint_clone, bigint_add, bigint_sub, bigint_mul, bigint_neg,
    bigint_shr, bigint_bit, bigint_lt, bigint_eq, bigint_to_i128, bigint_to_usize,
    bigint_to_decimal,
};
use crate::asn1_uper::bits::{unsigned_bits_value, signed_bits_value};

verus! {

/// The hidden representation of an ASN.1 integer.
///
/// The enum is kept inside the struct so that its variants cannot be built by
/// the user: every constructor normalizes, so a `Long` value always lies
/// outside the 128-bit signed range.
#[derive(Debug)]
enum IntegerInner {
    Short(i128),
    Long(num_bigint::BigInt),
}

/// An ASN.1 arbitrary-size integer.
///
/// The value is the only observable content; whether it is held inline in a
/// 128-bit word or in a heap-allocated big integer is an implementation
/// detail that every operation re-normalizes.
#[derive(Debug)]
pub struct Integer {
    inner: IntegerInner,
}

impl View for Integer {
    type V = int;

    closed spec fn view(&self) -> int {
        match self.inner {
            IntegerInner::Short(v) => v as int,
            IntegerInner::Long(b) => bigint_value(b),
        }
    }
}

impl Integer {
    /// A value is stored as `Long` only when it does not fit in 128 bits.
    #[verifier::type_invariant]
    spec fn normalized(self) -> bool {
        match self.inner {
            IntegerInner::Short(_) => true,
            IntegerInner::Long(b) => bigint_value(b) < i128::MIN || bigint_value(b) > i128::MAX,
        }
    }

    /// Creates an ASN.1 integer with the given short value.
    pub fn from_short(value: i128) -> (r: Self)
        ensures
            r@ == value,
    {
        Self { inner: IntegerInner::Short(value) }
    }

    /// Creates an ASN.1 integer with the given long value, normalizing it to
    /// the short representation whenever it fits.
    pub fn from_long(value: num_bigint::BigInt) -> (r: Self)
        ensures
            r@ == bigint_value(value),
    {
        match bigint_to_i128(&value) {
            Some(short) => Self { inner: IntegerInner::Short(short) },
            None => Self { inner: IntegerInner::Long(value) },
        }
    }

    /// Creates an ASN.1 integer from the given usize value.
    pub fn from_usize(value: usize) -> (r: Self)
        ensures
            r@ == value,
    {
        Self::from_short(value as i128)
    }

    /// Creates an unsigned ASN.1 integer from the given slice of bits.
    ///
    /// Bits are ordered from most to least significant; the result is the
    /// non-negative value of the bit string.
    pub fn from_bits_unsigned(bits: &[bool]) -> (r: Self)
        ensures
            r@ == unsigned_bits_value(bits@),
    {
        let one = Self::from_short(1);
        let mut value = Self::from_short(0);
        let mut i: usize = 0;
        while i < bits.len()
            invariant
                0 <= i <= bits@.len(),
                one@ == 1,
                value@ == unsigned_bits_value(bits@.take(i as int)),
            decreases bits@.len() - i,
        {
            let doubled = value.add(&value);
            value = if bits[i] {
                doubled.add(&one)
            } else {
                doubled
            };
            proof {
                assert(bits@.take(i + 1).drop_last() =~= bits@.take(i as int));
                assert(bits@.take(i + 1).last() == bits@[i as int]);
            }
            i += 1;
        }
        proof {
            assert(bits@.take(bits@.len() as int) =~= bits@);
        }
        value
    }

    /// Creates a signed ASN.1 integer from the given slice of bits.
    ///
    /// Bits are ordered from most to least significant. The first bit weighs
    /// `-2^(n-1)` instead of `2^(n-1)`, acting as a two's-complement sign bit.
    pub fn from_bits_signed(bits: &[bool]) -> (r: Self)
        ensures
            r@ == signed_bits_value(bits@),
    {
        let one = Self::from_short(1);
        let mut value = Self::from_short(0);
        let mut i: usize = 0;
        while i < bits.len()
            invariant
                0 <= i <= bits@.len(),
                one@ == 1,
                value@ == unsigned_bits_value(bits@.take(i as int)) - if i > 0 && bits@[0] {
                    pow2(i as nat) as int
                } else {
                    0int
                },
            decreases bits@.len() - i,
        {
            let doubled = value.add(&value);
            value = if bits[i] {
                if i == 0 {
                    doubled.sub(&one)
                } else {
                    doubled.add(&one)
                }
            } else {
                doubled
            };
            proof {
                assert(bits@.take(i + 1).drop_last() =~= bits@.take(i as int));
                assert(bits@.take(i + 1).last() == bits@[i as int]);
                if i > 0 {
                    lemma_pow2_unfold((i + 1) as nat);
                } else {
                    vstd::arithmetic::power2::lemma2_to64();
                }
            }
            i += 1;
        }
        proof {
            assert(bits@.take(bits@.len() as int) =~= bits@);
        }
        value
    }

    /// Returns the value as a `BigInt`.
    pub fn to_bigint(&self) -> (r: num_bigint::BigInt)
        ensures
            bigint_value(r) == self@,
    {
        match &self.inner {
            IntegerInner::Short(v) => bigint_from_i128(*v),
            IntegerInner::Long(b) => bigint_clone(b),
        }
    }

    /// Attempts to convert the value to usize, failing outside its range.
    pub fn try_to_usize(&self) -> (r: Option<usize>)
        ensures
            match r {
                Some(v) => v == self@,
                None => self@ < 0 || self@ > usize::MAX,
            },
    {
        match &self.inner {
            IntegerInner::Short(v) => {
                if *v >= 0 && *v <= usize::MAX as i128 {
                    Some(*v as usize)
                } else {
                    None
                }
            },
            IntegerInner::Long(b) => bigint_to_usize(b),
        }
    }

    /// Attempts to convert the value to i128, failing outside its range.
    pub fn try_to_i128(&self) -> (r: Option<i128>)
        ensures
            match r {
                Some(v) => v == self@,
                None => self@ < i128::MIN || self@ > i128::MAX,
            },
    {
        match &self.inner {
            IntegerInner::Short(v) => Some(*v),
            IntegerInner::Long(b) => bigint_to_i128(b),
        }
    }

    /// The sum of the two values.
    pub fn add(&self, rhs: &Integer) -> (r: Integer)
        ensures
            r@ == self@ + rhs@,
    {
        match (&self.inner, &rhs.inner) {
            (IntegerInner::Short(l), IntegerInner::Short(rv)) => {
                match l.checked_add(*rv) {
                    Some(sum) => Integer::from_short(sum),
                    None => Integer::from_long(
                        bigint_add(&bigint_from_i128(*l), &bigint_from_i128(*rv)),
                    ),
                }
            },
            (IntegerInner::Short(l), IntegerInner::Long(rb)) => Integer::from_long(
                bigint_add(&bigint_from_i128(*l), rb),
            ),
            (IntegerInner::Long(lb), IntegerInner::Short(rv)) => Integer::from_long(
                bigint_add(lb, &bigint_from_i128(*rv)),
            ),
            (IntegerInner::Long(lb), IntegerInner::Long(rb)) => Integer::from_long(
                bigint_add(lb, rb),
            ),
        }
    }

    /// The difference of the two values.
    pub fn sub(&self, rhs: &Integer) -> (r: Integer)
        ensures
            r@ == self@ - rhs@,
    {
        match (&self.inner, &rhs.inner) {
            (IntegerInner::Short(l), IntegerInner::Short(rv)) => {
                match l.checked_sub(*rv) {
                    Some(diff) => Integer::from_short(diff),
                    None => Integer::from_long(
                        bigint_sub(&bigint_from_i128(*l), &bigint_from_i128(*rv)),
                    ),
                }
            },
            (IntegerInner::Short(l), IntegerInner::Long(rb)) => Integer::from_long(
                bigint_sub(&bigint_from_i128(*l), rb),
            ),
            (IntegerInner::Long(lb), IntegerInner::Short(rv)) => Integer::from_long(
                bigint_sub(lb, &bigint_from_i128(*rv)),
            ),
            (IntegerInner::Long(lb), IntegerInner::Long(rb)) => Integer::from_long(
                bigint_sub(lb, rb),
            ),
        }
    }

    /// The product of the two values.
    pub fn mul(&self, rhs: &Integer) -> (r: Integer)
        ensures
            r@ == self@ * rhs@,
    {
        match (&self.inner, &rhs.inner) {
            (IntegerInner::Short(l), IntegerInner::Short(rv)) => {
                match l.checked_mul(*rv) {
                    Some(prod) => Integer::from_short(prod),
                    None => Integer::from_long(
                        bigint_mul(&bigint_from_i128(*l), &bigint_from_i128(*rv)),
                    ),
                }
            },
            (IntegerInner::Short(l), IntegerInner::Long(rb)) => Integer::from_long(
                bigint_mul(&bigint_from_i128(*l), rb),
            ),
            (IntegerInner::Long(lb), IntegerInner::Short(rv)) => Integer::from_long(
                bigint_mul(lb, &bigint_from_i128(*rv)),
            ),
            (IntegerInner::Long(lb), IntegerInner::Long(rb)) => Integer::from_long(
                bigint_mul(lb, rb),
            ),
        }
    }

    /// The negated value.
    pub fn neg(&self) -> (r: Integer)
        ensures
            r@ == -self@,
    {
        match &self.inner {
            IntegerInner::Short(v) => {
                if *v == i128::MIN {
                    Integer::from_long(bigint_neg(&bigint_from_i128(*v)))
                } else {
                    Integer::from_short(-*v)
                }
            },
            IntegerInner::Long(b) => Integer::from_long(bigint_neg(b)),
        }
    }

    /// Whether this value is strictly below the other.
    pub fn lt(&self, other: &Integer) -> (r: bool)
        ensures
            r == (self@ < other@),
    {
        match (&self.inner, &other.inner) {
            (IntegerInner::Short(l), IntegerInner::Short(rv)) => *l < *rv,
            (IntegerInner::Short(l), IntegerInner::Long(rb)) => bigint_lt(
                &bigint_from_i128(*l),
                rb,
            ),
            (IntegerInner::Long(lb), IntegerInner::Short(rv)) => bigint_lt(
                lb,
                &bigint_from_i128(*rv),
            ),
            (IntegerInner::Long(lb), IntegerInner::Long(rb)) => bigint_lt(lb, rb),
        }
    }

    /// Whether this value is below or equal to the other.
    pub fn le(&self, other: &Integer) -> (r: bool)
        ensures
            r == (self@ <= other@),
    {
        !other.lt(self)
    }

    /// Whether the two values are equal.
    pub fn equals(&self, other: &Integer) -> (r: bool)
        ensures
            r == (self@ == other@),
    {
        match (&self.inner, &other.inner) {
            (IntegerInner::Short(l), IntegerInner::Short(rv)) => *l == *rv,
            (IntegerInner::Short(l), IntegerInner::Long(rb)) => bigint_eq(
                &bigint_from_i128(*l),
                rb,
            ),
            (IntegerInner::Long(lb), IntegerInner::Short(rv)) => bigint_eq(
                lb,
                &bigint_from_i128(*rv),
            ),
            (IntegerInner::Long(lb), IntegerInner::Long(rb)) => bigint_eq(lb, rb),
        }
    }

    /// Half the value, rounded down; defined here for non-negative values only.
    pub(crate) fn half(&self) -> (r: Integer)
        requires
            self@ >= 0,
        ensures
            r@ == self@ / 2,
    {
        match &self.inner {
            IntegerInner::Short(v) => Integer::from_short(*v / 2),
            IntegerInner::Long(b) => {
                proof {
                    vstd::arithmetic::power2::lemma2_to64();
                }
                Integer::from_long(bigint_shr(b, 1))
            },
        }
    }

    /// Whether a non-negative value is odd.
    pub(crate) fn is_odd(&self) -> (r: bool)
        requires
            self@ >= 0,
        ensures
            r == (self@ % 2 == 1),
    {
        match &self.inner {
            IntegerInner::Short(v) => *v % 2 == 1,
            IntegerInner::Long(b) => {
                proof {
                    vstd::arithmetic::power2::lemma2_to64();
                }
                bigint_bit(b, 0)
            },
        }
    }

    /// The value `2^exponent`.
    pub(crate) fn power_of_two(exponent: usize) -> (r: Integer)
        ensures
            r@ == pow2(exponent as nat),
    {
        let mut value = Integer::from_short(1);
        let mut i: usize = 0;
        proof {
            vstd::arithmetic::power2::lemma2_to64();
        }
        while i < exponent
            invariant
                0 <= i <= exponent,
                value@ == pow2(i as nat),
            decreases exponent - i,
        {
            value = value.add(&value);
            proof {
                lemma_pow2_unfold((i + 1) as nat);
            }
            i += 1;
        }
        value
    }

    /// The value as decimal text.
    pub fn to_decimal_string(&self) -> (r: String)
        ensures
            r@ == crate::asn1_uper::bits::spec_decimal_string(self@),
    {
        match &self.inner {
            IntegerInner::Short(v) => i128_to_decimal(*v),
            IntegerInner::Long(b) => bigint_to_decimal(b),
        }
    }

    /// Attempts to convert the value to i128, signaling a conversion error
    /// outside its range and naming the representation that held the value.
    pub fn try_into_i128(&self) -> (r: Result<i128, TryFromIntegerError>)
        ensures
            match r {
                Ok(v) => v == self@,
                Err(e) => (self@ < i128::MIN || self@ > i128::MAX) && e
                    == (TryFromIntegerError::Long {}),
            },
    {
        proof {
            use_type_invariant(self);
        }
        match &self.inner {
            IntegerInner::Short(v) => Ok(*v),
            IntegerInner::Long(b) => match bigint_to_i128(b) {
                Some(v) => Ok(v),
                None => Err(TryFromIntegerError::Long {}),
            },
        }
    }

    /// Attempts to convert the value to usize, signaling a conversion error
    /// outside its range and naming the representation that held the value.
    pub fn try_into_usize(&self) -> (r: Result<usize, TryFromIntegerError>)
        ensures
            match r {
                Ok(v) => v == self@,
                Err(e) => (self@ < 0 || self@ > usize::MAX) && ((e == (TryFromIntegerError::Short {
                })) == (i128::MIN <= self@ <= i128::MAX)),
            },
    {
        proof {
            use_type_invariant(self);
        }
        match &self.inner {
            IntegerInner::Short(v) => {
                if *v >= 0 && *v <= usize::MAX as i128 {
                    Ok(*v as usize)
                } else {
                    Err(TryFromIntegerError::Short {})
                }
            },
            IntegerInner::Long(b) => match bigint_to_usize(b) {
                Some(v) => Ok(v),
                None => Err(TryFromIntegerError::Long {}),
            },
        }
    }
}

/// An error that occurs when attempting to convert an ASN.1 integer into a
/// built-in integer type: the value lies outside the target's range. The
/// variant names which internal representation held the value.
#[derive(Clone, Copy, Debug, PartialEq, Eq)]
pub enum TryFromIntegerError {
    Short {},
    Long {},
}

impl Clone for Integer {
    /// The copy has the same value.
    fn clone(&self) -> (r: Self)
        ensures
            r@ == self@,
    {
        match &self.inner {
            IntegerInner::Short(v) => Integer { inner: IntegerInner::Short(*v) },
            IntegerInner::Long(b) => {
                proof {
                    use_type_invariant(self);
                }
                Integer { inner: IntegerInner::Long(bigint_clone(b)) }
            },
        }
    }
}

impl PartialEq for Integer {
    /// Equality of the values, whichever representation holds them.
    fn eq(&self, other: &Self) -> (r: bool)
        ensures
            r == (self@ == other@),
    {
        self.equals(other)
    }
}

impl vstd::std_specs::cmp::PartialEqSpecImpl for Integer {
    open spec fn obeys_eq_spec() -> bool {
        true
    }

    open spec fn eq_spec(&self, other: &Self) -> bool {
        self@ == other@
    }
}

impl Eq for Integer {

}

/// Relies on `Display for i128`: the decimal digits of the value, most
/// significant first, with a leading minus sign for negatives.
#[verifier::external_body]
fn i128_to_decimal(v: i128) -> (r: String)
    ensures
        r@ == crate::asn1_uper::bits::spec_decimal_string(v as int),
{
    format!("{}", v)
}

} // verus!
