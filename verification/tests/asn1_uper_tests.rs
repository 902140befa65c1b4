use uic_uper::asn1_uper::{
    to_bits_msb_first, to_bytes_msb_first, decode_nonneg_int_complete,
    decode_unconstrained_int_complete, bits_required_for_unique_values, decode_length,
    encode_length, decode_integer, encode_integer, decode_bool, encode_bool, decode_bools,
    decode_octet_string, encode_octet_string, decode_ia5_string, encode_ia5_string,
    octet_string_to_utf8, value_with_length_is_fragmented, Integer, WholeNumberConstraint,
    DecodeFailure, ErrorKind, EncodingError,
};
use num_bigint::BigInt;
use uic_uper::asn1_uper::TryFromIntegerError;

#[test]
fn test_to_bits_msb_first() {
    assert_eq!(to_bits_msb_first(&[0x00]), &[false, false, false, false, false, false, false, false]);
    assert_eq!(to_bits_msb_first(&[0x23]), &[false, false, true,  false, false, false, true,  true ]);
    assert_eq!(to_bits_msb_first(&[0x7F]), &[false, true,  true,  true,  true,  true,  true,  true ]);
    assert_eq!(to_bits_msb_first(&[0x80]), &[true,  false, false, false, false, false, false, false]);
    assert_eq!(to_bits_msb_first(&[0xFF]), &[true,  true,  true,  true,  true,  true,  true,  true ]);
    assert_eq!(to_bits_msb_first(&[0x01, 0x80]), &[false, false, false, false, false, false, false, true,  true,  false, false, false, false, false, false, false]);
}

#[test]
fn test_decode_nonneg_int_complete() {
    assert_eq!(decode_nonneg_int_complete(&[false, false, false, false, false, false, false, true ]).unwrap().1, Integer::from_short(1));
    assert_eq!(decode_nonneg_int_complete(&[false, false, false, false, false, false, true,  true ]).unwrap().1, Integer::from_short(3));
    assert_eq!(decode_nonneg_int_complete(&[false, true,  true,  true,  true,  true,  true,  true ]).unwrap().1, Integer::from_short(127));
    assert_eq!(decode_nonneg_int_complete(&[true,  false, false, false, false, false, false, false]).unwrap().1, Integer::from_short(128));
    assert_eq!(decode_nonneg_int_complete(&[true,  false, false, false, false, false, false, true ]).unwrap().1, Integer::from_short(129));
    assert_eq!(decode_nonneg_int_complete(&[true,  false, false, false, false, false, true,  true ]).unwrap().1, Integer::from_short(131));
    assert_eq!(decode_nonneg_int_complete(&[false, true,  false, false, false, false, false, false, false]).unwrap().1, Integer::from_short(128));
    assert_eq!(decode_nonneg_int_complete(&[false, true,  false, false, false, false, false, false, true ]).unwrap().1, Integer::from_short(129));
    assert_eq!(decode_nonneg_int_complete(&[false, true,  false, false, false, false, false, true,  true ]).unwrap().1, Integer::from_short(131));
}

#[test]
fn test_decode_unconstrained_int_complete() {
    assert_eq!(decode_unconstrained_int_complete(&[false, false, false, false, false, false, false, true ]).unwrap().1, Integer::from_short(1));
    assert_eq!(decode_unconstrained_int_complete(&[false, false, false, false, false, false, true,  true ]).unwrap().1, Integer::from_short(3));
    assert_eq!(decode_unconstrained_int_complete(&[false, true,  true,  true,  true,  true,  true,  true ]).unwrap().1, Integer::from_short(127));
    assert_eq!(decode_unconstrained_int_complete(&[true,  false, false, false, false, false, false, false]).unwrap().1, Integer::from_short(-128));
    assert_eq!(decode_unconstrained_int_complete(&[true,  false, false, false, false, false, false, true ]).unwrap().1, Integer::from_short(-127));
    assert_eq!(decode_unconstrained_int_complete(&[true,  false, false, false, false, false, true,  true ]).unwrap().1, Integer::from_short(-125));
    assert_eq!(decode_unconstrained_int_complete(&[false, true,  false, false, false, false, false, false, false]).unwrap().1, Integer::from_short(128));
    assert_eq!(decode_unconstrained_int_complete(&[false, true,  false, false, false, false, false, false, true ]).unwrap().1, Integer::from_short(129));
    assert_eq!(decode_unconstrained_int_complete(&[false, true,  false, false, false, false, false, true,  true ]).unwrap().1, Integer::from_short(131));
}

#[test]
fn test_bits_required() {
    assert_eq!(bits_required_for_unique_values(&Integer::from_short(1)), 0);
    assert_eq!(bits_required_for_unique_values(&Integer::from_short(2)), 1);
    assert_eq!(bits_required_for_unique_values(&Integer::from_short(3)), 2);
    assert_eq!(bits_required_for_unique_values(&Integer::from_short(4)), 2);
    assert_eq!(bits_required_for_unique_values(&Integer::from_short(5)), 3);
    assert_eq!(bits_required_for_unique_values(&Integer::from_short(6)), 3);
    assert_eq!(bits_required_for_unique_values(&Integer::from_short(7)), 3);
    assert_eq!(bits_required_for_unique_values(&Integer::from_short(8)), 3);
    assert_eq!(bits_required_for_unique_values(&Integer::from_short(9)), 4);
}

#[test]
fn test_constrained_int_known_schema_field() {
    // the issuing-year field: value 2024 under [2016, 2269] is the offset 8
    // in exactly eight bits
    let constraint = WholeNumberConstraint::Constrained {
        min: Integer::from_short(2016),
        max: Integer::from_short(2269),
    };
    let mut buf: Vec<bool> = Vec::new();
    encode_integer(&mut buf, &constraint, &Integer::from_short(2024)).unwrap();
    assert_eq!(buf, &[false, false, false, false, true, false, false, false]);
    let (rest, value) = decode_integer(&buf, &constraint).unwrap();
    assert_eq!(value, Integer::from_short(2024));
    assert_eq!(rest.len(), 0);
}

#[test]
fn test_singular_constraint_zero_bits() {
    let constraint = WholeNumberConstraint::Constrained {
        min: Integer::from_short(3),
        max: Integer::from_short(3),
    };
    let mut buf: Vec<bool> = Vec::new();
    encode_integer(&mut buf, &constraint, &Integer::from_short(3)).unwrap();
    assert_eq!(buf.len(), 0);
    let bits = [true, false, true];
    let (rest, value) = decode_integer(&bits, &constraint).unwrap();
    assert_eq!(value, Integer::from_short(3));
    assert_eq!(rest.len(), 3);
    // a singular constraint of large magnitude still takes zero bits
    let large = WholeNumberConstraint::Constrained {
        min: Integer::from_short(123456789012345678901234567890i128),
        max: Integer::from_short(123456789012345678901234567890i128),
    };
    let mut buf2: Vec<bool> = Vec::new();
    encode_integer(&mut buf2, &large, &Integer::from_short(123456789012345678901234567890i128))
        .unwrap();
    assert_eq!(buf2.len(), 0);
    assert_eq!(
        large.singular_value().unwrap(),
        &Integer::from_short(123456789012345678901234567890i128)
    );
}

#[test]
fn test_singular_constraint_wrong_value() {
    // encoding 5 under {min = max = 3} must fail and write nothing
    let constraint = WholeNumberConstraint::Constrained {
        min: Integer::from_short(3),
        max: Integer::from_short(3),
    };
    let mut buf: Vec<bool> = Vec::new();
    let result = encode_integer(&mut buf, &constraint, &Integer::from_short(5));
    match result {
        Err(EncodingError::SingleValueIntegerHasWrongValue { expected, obtained, .. }) => {
            assert_eq!(expected, Integer::from_short(3));
            assert_eq!(obtained, Integer::from_short(5));
        },
        other => panic!("expected a single-value error, got {:?}", other),
    }
    assert_eq!(buf.len(), 0);
}

#[test]
fn test_length_boundaries() {
    // length 127: a zero flag and seven bits
    let mut buf: Vec<bool> = Vec::new();
    encode_length(&mut buf, &WholeNumberConstraint::Unconstrained, 127).unwrap();
    assert_eq!(buf, &[false, true, true, true, true, true, true, true]);
    let (rest, value) = decode_length(&buf, &WholeNumberConstraint::Unconstrained).unwrap();
    assert_eq!(value, Integer::from_short(127));
    assert_eq!(rest.len(), 0);

    // length 128: two flags and fourteen bits
    let mut buf: Vec<bool> = Vec::new();
    encode_length(&mut buf, &WholeNumberConstraint::Unconstrained, 128).unwrap();
    let mut expected = vec![true, false];
    expected.extend([false, false, false, false, false, false, true, false, false, false, false, false, false, false]);
    assert_eq!(buf, expected);
    let (rest, value) = decode_length(&buf, &WholeNumberConstraint::Unconstrained).unwrap();
    assert_eq!(value, Integer::from_short(128));
    assert_eq!(rest.len(), 0);

    // length 16384: two one-flags and a six-bit block count of one
    let mut buf: Vec<bool> = Vec::new();
    encode_length(&mut buf, &WholeNumberConstraint::Unconstrained, 16384).unwrap();
    assert_eq!(buf, &[true, true, false, false, false, false, false, true]);
    let (rest, value) = decode_length(&buf, &WholeNumberConstraint::Unconstrained).unwrap();
    assert_eq!(value, Integer::from_short(16384));
    assert_eq!(rest.len(), 0);
    assert!(value_with_length_is_fragmented(&value));
    assert!(!value_with_length_is_fragmented(&Integer::from_short(128)));
}

#[test]
fn test_constrained_length_uses_range_bits() {
    let constraint = WholeNumberConstraint::Constrained {
        min: Integer::from_short(0),
        max: Integer::from_short(7),
    };
    let mut buf: Vec<bool> = Vec::new();
    encode_length(&mut buf, &constraint, 5).unwrap();
    assert_eq!(buf, &[true, false, true]);
    let (rest, value) = decode_length(&buf, &constraint).unwrap();
    assert_eq!(value, Integer::from_short(5));
    assert_eq!(rest.len(), 0);
}

#[test]
fn test_normally_small_length_round_trip() {
    let mut buf: Vec<bool> = Vec::new();
    encode_length(&mut buf, &WholeNumberConstraint::NormallySmall, 5).unwrap();
    assert_eq!(buf, &[false, false, false, false, true, false, true]);
    let (rest, value) = decode_length(&buf, &WholeNumberConstraint::NormallySmall).unwrap();
    assert_eq!(value, Integer::from_short(5));
    assert_eq!(rest.len(), 0);

    // 100 does not fit six bits and takes the length-prefixed octet form
    let mut buf: Vec<bool> = Vec::new();
    encode_length(&mut buf, &WholeNumberConstraint::NormallySmall, 100).unwrap();
    let mut expected = vec![true];
    expected.extend([false, false, false, false, false, false, false, true]);
    expected.extend([false, true, true, false, false, true, false, false]);
    assert_eq!(buf, expected);
    let (rest, value) = decode_length(&buf, &WholeNumberConstraint::NormallySmall).unwrap();
    assert_eq!(value, Integer::from_short(100));
    assert_eq!(rest.len(), 0);
}

#[test]
fn test_unconstrained_int_round_trip() {
    for v in [0i128, 1, 127, 128, 255, 256, -1, -127, -128, -129, -256, -257, 65535, -65536] {
        let mut buf: Vec<bool> = Vec::new();
        encode_integer(&mut buf, &WholeNumberConstraint::Unconstrained, &Integer::from_short(v))
            .unwrap();
        let (rest, value) = decode_integer(&buf, &WholeNumberConstraint::Unconstrained).unwrap();
        assert_eq!(value, Integer::from_short(v), "value {} did not round-trip", v);
        assert_eq!(rest.len(), 0);
    }
}

#[test]
fn test_unconstrained_int_sign_extension() {
    // +128 takes two octets to keep its sign bit clear
    let mut buf: Vec<bool> = Vec::new();
    encode_integer(&mut buf, &WholeNumberConstraint::Unconstrained, &Integer::from_short(128))
        .unwrap();
    let mut expected = vec![false, false, false, false, false, false, true, false];
    expected.extend([false, false, false, false, false, false, false, false]);
    expected.extend([true, false, false, false, false, false, false, false]);
    assert_eq!(buf, expected);
    // -128 fits one octet
    let mut buf: Vec<bool> = Vec::new();
    encode_integer(&mut buf, &WholeNumberConstraint::Unconstrained, &Integer::from_short(-128))
        .unwrap();
    let mut expected = vec![false, false, false, false, false, false, false, true];
    expected.extend([true, false, false, false, false, false, false, false]);
    assert_eq!(buf, expected);
}

#[test]
fn test_semi_constrained_int_round_trip() {
    let constraint = WholeNumberConstraint::SemiConstrained { min: Integer::from_short(10) };
    for v in [10i128, 11, 200, 265, 1000000] {
        let mut buf: Vec<bool> = Vec::new();
        encode_integer(&mut buf, &constraint, &Integer::from_short(v)).unwrap();
        let (rest, value) = decode_integer(&buf, &constraint).unwrap();
        assert_eq!(value, Integer::from_short(v), "value {} did not round-trip", v);
        assert_eq!(rest.len(), 0);
    }
}

#[test]
fn test_large_integer_round_trip() {
    // a value outside the 128-bit range exercises the big-integer path
    let mut magnitude_bits = vec![true];
    magnitude_bits.extend(std::iter::repeat(false).take(130));
    let big = Integer::from_bits_unsigned(&magnitude_bits);
    assert_eq!(big.try_to_i128(), None);
    assert_eq!(big.try_to_usize(), None);
    let mut buf: Vec<bool> = Vec::new();
    encode_integer(&mut buf, &WholeNumberConstraint::Unconstrained, &big).unwrap();
    let (rest, value) = decode_integer(&buf, &WholeNumberConstraint::Unconstrained).unwrap();
    assert_eq!(value, big);
    assert_eq!(rest.len(), 0);
    let negated = big.neg();
    let mut buf: Vec<bool> = Vec::new();
    encode_integer(&mut buf, &WholeNumberConstraint::Unconstrained, &negated).unwrap();
    let (rest, value) = decode_integer(&buf, &WholeNumberConstraint::Unconstrained).unwrap();
    assert_eq!(value, negated);
    assert_eq!(rest.len(), 0);
}

#[test]
fn test_integer_bigint_bridge() {
    assert_eq!(Integer::from_long(BigInt::from(42)), Integer::from_short(42));
    assert_eq!(Integer::from_short(7).to_bigint(), BigInt::from(7));
    assert_eq!(Integer::from_usize(300).to_bigint(), BigInt::from(300));
    let two_to_200: BigInt = BigInt::from(1) << 200;
    let value = Integer::from_long(two_to_200.clone());
    assert_eq!(value.to_bigint(), two_to_200);
    assert_eq!(value.try_to_i128(), None);
    assert_eq!(value.to_decimal_string(), two_to_200.to_string());
    assert_eq!(Integer::from_short(-45).to_decimal_string(), "-45");
}

#[test]
fn test_ia5_round_trip() {
    // the scenario of record: "AB1" under an unconstrained length
    let mut buf: Vec<bool> = Vec::new();
    encode_ia5_string(&mut buf, &WholeNumberConstraint::Unconstrained, "AB1").unwrap();
    let (rest, bytes) = decode_ia5_string(&buf, &WholeNumberConstraint::Unconstrained).unwrap();
    assert_eq!(bytes, b"AB1");
    assert_eq!(rest.len(), 0);
    let (rest2, text) = octet_string_to_utf8(rest, bytes).unwrap();
    assert_eq!(text, "AB1");
    assert_eq!(rest2.len(), 0);
}

#[test]
fn test_ia5_top_bit_rejected() {
    let mut buf: Vec<bool> = Vec::new();
    let result = encode_ia5_string(&mut buf, &WholeNumberConstraint::Unconstrained, "caf\u{e9}");
    match result {
        Err(EncodingError::Ia5ByteHasTopBitSet { string, byte_index, .. }) => {
            assert_eq!(string, "caf\u{e9}");
            assert_eq!(byte_index, 3);
        },
        other => panic!("expected a top-bit error, got {:?}", other),
    }
    assert_eq!(buf.len(), 0);
}

#[test]
fn test_octet_string_round_trip() {
    let payload = [0x00u8, 0x7F, 0x80, 0xFF];
    let mut buf: Vec<bool> = Vec::new();
    encode_octet_string(&mut buf, &WholeNumberConstraint::Unconstrained, &payload).unwrap();
    let (rest, bytes) = decode_octet_string(&buf, &WholeNumberConstraint::Unconstrained).unwrap();
    assert_eq!(bytes, &payload);
    assert_eq!(rest.len(), 0);
}

#[test]
fn test_bool_and_bit_runs() {
    let mut buf: Vec<bool> = Vec::new();
    encode_bool(&mut buf, true);
    encode_bool(&mut buf, false);
    let (rest, first) = decode_bool(&buf).unwrap();
    assert!(first);
    let (rest, second) = decode_bool(rest).unwrap();
    assert!(!second);
    assert_eq!(rest.len(), 0);
    let bits = [true, false, true, true];
    let (rest, run) = decode_bools(&bits, 3).unwrap();
    assert_eq!(run, &[true, false, true]);
    assert_eq!(rest, &[true]);
}

#[test]
fn test_incomplete_input() {
    match decode_bool(&[]) {
        Err(DecodeFailure::Incomplete { needed }) => assert_eq!(needed, 1),
        other => panic!("expected incomplete input, got {:?}", other),
    }
    match decode_length(&[false, true], &WholeNumberConstraint::Unconstrained) {
        Err(DecodeFailure::Incomplete { needed }) => assert_eq!(needed, 6),
        other => panic!("expected incomplete input, got {:?}", other),
    }
}

#[test]
fn test_invalid_huge_length() {
    // block counts outside 1..=4 are invalid
    let bits = [true, true, false, false, false, true, false, true];
    match decode_length(&bits, &WholeNumberConstraint::Unconstrained) {
        Err(DecodeFailure::Error(e)) => {
            match e.kind {
                ErrorKind::InvalidHugeLength { value, .. } => {
                    assert_eq!(value, Integer::from_short(5));
                },
                other => panic!("expected an invalid-huge-length error, got {:?}", other),
            }
            assert_eq!(e.bits_remaining, 0);
        },
        other => panic!("expected a decoding error, got {:?}", other),
    }
}

#[test]
fn test_length_not_usize() {
    // a singular length constraint beyond the platform word must be rejected
    let constraint = WholeNumberConstraint::Constrained {
        min: Integer::from_short(36893488147419103232i128),
        max: Integer::from_short(36893488147419103232i128),
    };
    match decode_octet_string(&[], &constraint) {
        Err(DecodeFailure::Error(e)) => match e.kind {
            ErrorKind::LengthValueNotUsize { value, .. } => {
                assert_eq!(value, Integer::from_short(36893488147419103232i128));
            },
            other => panic!("expected a length-not-usize error, got {:?}", other),
        },
        other => panic!("expected a decoding error, got {:?}", other),
    }
}

#[test]
fn test_invalid_utf8() {
    match octet_string_to_utf8(&[], vec![0xFF, 0x00]) {
        Err(DecodeFailure::Error(e)) => match e.kind {
            ErrorKind::InvalidUtf8String { bytes, .. } => assert_eq!(bytes, vec![0xFF, 0x00]),
            other => panic!("expected an invalid-utf8 error, got {:?}", other),
        },
        other => panic!("expected a decoding error, got {:?}", other),
    }
}

#[test]
fn test_encode_length_out_of_range() {
    // a count below the constrained minimum is a negative offset
    let constraint = WholeNumberConstraint::Constrained {
        min: Integer::from_short(5),
        max: Integer::from_short(10),
    };
    let mut buf: Vec<bool> = Vec::new();
    match encode_length(&mut buf, &constraint, 3) {
        Err(EncodingError::NonNegativeIntegerHasNegativeValue { obtained, .. }) => {
            assert_eq!(obtained, Integer::from_short(-2));
        },
        other => panic!("expected a negative-value error, got {:?}", other),
    }
    assert_eq!(buf.len(), 0);
    // a count beyond what the range's bits can hold does not fit
    let narrow = WholeNumberConstraint::Constrained {
        min: Integer::from_short(0),
        max: Integer::from_short(3),
    };
    match encode_length(&mut buf, &narrow, 100) {
        Err(EncodingError::IntegerDoesNotFitIntoBits { value, bits, .. }) => {
            assert_eq!(value, Integer::from_short(100));
            assert_eq!(bits, 2);
        },
        other => panic!("expected a does-not-fit error, got {:?}", other),
    }
    assert_eq!(buf.len(), 0);
}

#[test]
fn test_to_bytes_msb_first() {
    assert_eq!(to_bytes_msb_first(&[]), Vec::<u8>::new());
    assert_eq!(to_bytes_msb_first(&[true]), vec![0x80]);
    assert_eq!(
        to_bytes_msb_first(&[false, false, true, false, false, false, true, true]),
        vec![0x23]
    );
    assert_eq!(
        to_bytes_msb_first(&[false, false, true, false, false, false, true, true, true, true]),
        vec![0x23, 0xC0]
    );
}

#[test]
fn test_decimal_rendering() {
    assert_eq!(Integer::from_short(0).to_decimal_string(), "0");
    assert_eq!(Integer::from_usize(1234).to_decimal_string(), "1234");
    assert_eq!(Integer::from_short(-7).to_decimal_string(), "-7");
}

#[test]
fn test_conversion_error_kinds() {
    assert_eq!(Integer::from_short(42).try_into_i128(), Ok(42));
    assert_eq!(Integer::from_short(42).try_into_usize(), Ok(42));
    assert_eq!(
        Integer::from_short(-1).try_into_usize(),
        Err(TryFromIntegerError::Short {})
    );
    let mut huge_bits = vec![true];
    huge_bits.extend(std::iter::repeat(false).take(130));
    let huge = Integer::from_bits_unsigned(&huge_bits);
    assert_eq!(huge.try_into_i128(), Err(TryFromIntegerError::Long {}));
    assert_eq!(huge.try_into_usize(), Err(TryFromIntegerError::Long {}));
}
