//! Record types of the flexible-content railway ticket schema.
//!
//! Each record is a SEQUENCE, CHOICE or ENUMERATED type of the UIC ticket
//! schema and decodes itself from a UPER bit string with the codec
//! primitives, each field under its schema-literal range constraint. Every
//! decoder consumes a prefix of its input and hands back the remaining
//! suffix; an extensibility marker, an enumeration index outside the
//! declared alternatives, or malformed wire data surfaces as a structured
//! error, never as a panic.

use vstd::prelude::*;
use crate::asn1_uper::{
    self, Integer, WholeNumberConstraint, DecodeFailure, DecodingError, ErrorKind, ParseResult,
    is_suffix_of,
};

verus! {

broadcast use crate::asn1_uper::bits::lemma_suffix_transitive, crate::asn1_uper::bits::lemma_skip_zero;

/// The outcome of reading an enumeration or choice index: the extension
/// marker (where the type has one), then a constrained whole number
/// counting the declared alternatives.
pub enum IndexOutcome {
    /// The `consumed` leading bits select alternative `index`.
    Taken { consumed: int, index: int },
    /// The input ends `needed` bits too early.
    Incomplete { needed: int },
    /// The extension marker is set; extensions are not interpreted.
    Extended,
}

/// Reads the index of an enumerated or choice type from the front of a bit
/// string: one extension bit where the type is extensible, then the index
/// constrained to `0..=max`.
pub open spec fn spec_decode_enum_index(bits: Seq<bool>, extensible: bool, max: int) -> IndexOutcome {
    if extensible && bits.len() < 1 {
        IndexOutcome::Incomplete { needed: 1 }
    } else if extensible && bits[0] {
        IndexOutcome::Extended
    } else {
        let head = if extensible {
            1int
        } else {
            0int
        };
        let body = bits.skip(head);
        let w = asn1_uper::shift_count(max) as int;
        if body.len() >= w {
            IndexOutcome::Taken {
                consumed: head + w,
                index: asn1_uper::unsigned_bits_value(body.take(w)),
            }
        } else {
            IndexOutcome::Incomplete { needed: w - body.len() }
        }
    }
}

/// Reads the extensibility marker of a SEQUENCE or ENUMERATED type and
/// rejects input that sets it: extensions are detected, not interpreted.
fn decode_extension_marker<'a>(bits: &'a [bool]) -> (r: ParseResult<'a, ()>)
    ensures
        match r {
            Ok((rest, _)) => bits@.len() >= 1 && !bits@[0] && rest@ == bits@.skip(1)
                && is_suffix_of(rest@, bits@),
            Err(DecodeFailure::Incomplete { needed }) => bits@.len() == 0 && needed == 1,
            Err(DecodeFailure::Error(e)) => bits@.len() >= 1 && bits@[0] && e.bits_remaining
                == bits@.len() - 1 && e.kind matches ErrorKind::UnsupportedExtension {  },
        },
{
    let (rest, is_extended) = asn1_uper::decode_bool(bits)?;
    if is_extended {
        Err(
            DecodeFailure::Error(
                DecodingError::new(rest.len(), ErrorKind::UnsupportedExtension {}),
            ),
        )
    } else {
        Ok((rest, ()))
    }
}

/// Decodes one enumeration index constrained to `0..=max`, as a machine
/// integer.
fn decode_enumerated_index<'a>(bits: &'a [bool], max: i128) -> (r: ParseResult<'a, usize>)
    requires
        0 < max <= 65536,
    ensures
        ({
            let w = asn1_uper::shift_count(max as int) as int;
            match r {
                Ok((rest, i)) => bits@.len() >= w && rest@ == bits@.skip(w) && i
                    == asn1_uper::unsigned_bits_value(bits@.take(w)) && is_suffix_of(
                    rest@,
                    bits@,
                ) && rest@.len() < bits@.len(),
                Err(DecodeFailure::Incomplete { needed }) => bits@.len() < w && needed == w
                    - bits@.len(),
                Err(_) => false,
            }
        }),
{
    proof {
        vstd::arithmetic::power2::lemma2_to64();
        crate::asn1_uper::bits::lemma_shift_count_le(max as int, 17);
        assert(crate::asn1_uper::shift_count(max as int) >= 1);
        crate::asn1_uper::bits::lemma_unsigned_bits_value_bounds(
            bits@.take(crate::asn1_uper::shift_count(max as int) as int),
        );
        if crate::asn1_uper::shift_count(max as int) < 17 {
            vstd::arithmetic::power2::lemma_pow2_strictly_increases(
                crate::asn1_uper::shift_count(max as int),
                17,
            );
        }
    }
    let constraint = WholeNumberConstraint::Constrained {
        min: Integer::from_short(0),
        max: Integer::from_short(max),
    };
    let (rest, value_index) = asn1_uper::decode_integer(bits, &constraint)?;
    match value_index.try_to_usize() {
        Some(i) => Ok((rest, i)),
        None => Err(
            DecodeFailure::Error(
                DecodingError::new(
                    rest.len(),
                    ErrorKind::InvalidEnumerated { value: value_index },
                ),
            ),
        ),
    }
}

/// Decodes one integer field constrained to `min..=max`.
fn decode_constrained_integer_field<'a>(bits: &'a [bool], min: i128, max: i128) -> (r: ParseResult<
    'a,
    Integer,
>)
    requires
        min < max,
        max - min <= u32::MAX,
    ensures
        match r {
            Ok((rest, v)) => (match asn1_uper::spec_decode_constrained_int(
                bits@,
                min as int,
                max as int,
            ) {
                asn1_uper::NumberOutcome::Taken { consumed, value } => rest@ == bits@.skip(
                    consumed,
                ) && v@ == value && is_suffix_of(rest@, bits@) && rest@.len() < bits@.len(),
                _ => false,
            }),
            Err(DecodeFailure::Incomplete { needed }) => (match asn1_uper::spec_decode_constrained_int(
                bits@,
                min as int,
                max as int,
            ) {
                asn1_uper::NumberOutcome::Incomplete { needed: n } => needed == n,
                _ => false,
            }),
            Err(_) => false,
        },
{
    proof {
        vstd::arithmetic::power2::lemma2_to64();
        crate::asn1_uper::bits::lemma_shift_count_le(max - min, 32);
        assert(crate::asn1_uper::shift_count(max - min) >= 1);
    }
    let constraint = WholeNumberConstraint::Constrained {
        min: Integer::from_short(min),
        max: Integer::from_short(max),
    };
    asn1_uper::decode_integer(bits, &constraint)
}

/// Decodes one unconstrained integer field.
fn decode_unconstrained_integer_field<'a>(bits: &'a [bool]) -> (r: ParseResult<'a, Integer>)
    ensures
        match r {
            Ok((rest, v)) => (match asn1_uper::spec_decode_octet_int(bits@, None) {
                asn1_uper::NumberOutcome::Taken { consumed, value } => rest@ == bits@.skip(
                    consumed,
                ) && v@ == value && is_suffix_of(rest@, bits@) && rest@.len() < bits@.len(),
                _ => false,
            }),
            Err(DecodeFailure::Incomplete { needed }) => (match asn1_uper::spec_decode_octet_int(
                bits@,
                None,
            ) {
                asn1_uper::NumberOutcome::Incomplete { needed: n } => needed == n,
                _ => false,
            }),
            Err(_) => true,
        },
{
    let r = asn1_uper::decode_integer(bits, &WholeNumberConstraint::Unconstrained);
    proof {
        crate::asn1_uper::lemma_octet_int_consumes(bits@, None);
    }
    r
}

/// Decodes one IA5 string field under an unconstrained length, reassembled
/// as UTF-8.
fn decode_ia5_string_field<'a>(bits: &'a [bool]) -> (r: ParseResult<'a, String>)
    ensures
        match r {
            Ok((rest, s)) => (match asn1_uper::spec_decode_string(
                bits@,
                WholeNumberConstraint::Unconstrained,
                7,
            ) {
                asn1_uper::BytesOutcome::Taken { consumed, bytes } => rest@ == bits@.skip(
                    consumed,
                ) && vstd::utf8::valid_utf8(bytes) && s@ == vstd::utf8::decode_utf8(bytes)
                    && is_suffix_of(rest@, bits@) && rest@.len() < bits@.len(),
                _ => false,
            }),
            Err(_) => true,
        },
{
    let (rest, octet_string) = asn1_uper::decode_ia5_string(
        bits,
        &WholeNumberConstraint::Unconstrained,
    )?;
    proof {
        crate::asn1_uper::lemma_string_decode_consumes(bits@, 7);
    }
    let (rest, utf8_string) = asn1_uper::octet_string_to_utf8(rest, octet_string)?;
    Ok((rest, utf8_string))
}

/// Decodes one octet string field under an unconstrained length,
/// reassembled as UTF-8.
fn decode_utf8_octet_string_field<'a>(bits: &'a [bool]) -> (r: ParseResult<'a, String>)
    ensures
        match r {
            Ok((rest, s)) => (match asn1_uper::spec_decode_string(
                bits@,
                WholeNumberConstraint::Unconstrained,
                8,
            ) {
                asn1_uper::BytesOutcome::Taken { consumed, bytes } => rest@ == bits@.skip(
                    consumed,
                ) && vstd::utf8::valid_utf8(bytes) && s@ == vstd::utf8::decode_utf8(bytes)
                    && is_suffix_of(rest@, bits@) && rest@.len() < bits@.len(),
                _ => false,
            }),
            Err(_) => true,
        },
{
    let (rest, octet_string) = asn1_uper::decode_octet_string(
        bits,
        &WholeNumberConstraint::Unconstrained,
    )?;
    proof {
        crate::asn1_uper::lemma_string_decode_consumes(bits@, 8);
    }
    let (rest, utf8_string) = asn1_uper::octet_string_to_utf8(rest, octet_string)?;
    Ok((rest, utf8_string))
}

/// Decodes one octet string field under an unconstrained length, kept as
/// raw bytes.
fn decode_octet_string_field<'a>(bits: &'a [bool]) -> (r: ParseResult<'a, Vec<u8>>)
    ensures
        match r {
            Ok((rest, v)) => (match asn1_uper::spec_decode_string(
                bits@,
                WholeNumberConstraint::Unconstrained,
                8,
            ) {
                asn1_uper::BytesOutcome::Taken { consumed, bytes } => rest@ == bits@.skip(
                    consumed,
                ) && v@ == bytes && is_suffix_of(rest@, bits@) && rest@.len() < bits@.len(),
                _ => false,
            }),
            Err(_) => true,
        },
{
    let r = asn1_uper::decode_octet_string(bits, &WholeNumberConstraint::Unconstrained);
    proof {
        crate::asn1_uper::lemma_string_decode_consumes(bits@, 8);
    }
    r
}

/// Reads the length determinant of a SEQUENCE OF and converts it to a
/// member count.
fn decode_sequence_of_length<'a>(bits: &'a [bool]) -> (r: ParseResult<'a, usize>)
    ensures
        match r {
            Ok((rest, n)) => (match asn1_uper::spec_decode_length_general(bits@) {
                asn1_uper::NumberOutcome::Taken { consumed, value } => rest@ == bits@.skip(
                    consumed,
                ) && n == value && is_suffix_of(rest@, bits@) && rest@.len() < bits@.len(),
                _ => false,
            }),
            Err(_) => true,
        },
{
    let (rest, length_integer) = asn1_uper::decode_length(
        bits,
        &WholeNumberConstraint::Unconstrained,
    )?;
    proof {
        crate::asn1_uper::lemma_general_length_consumes(bits@);
    }
    match length_integer.try_to_usize() {
        Some(l) => Ok((rest, l)),
        None => Err(
            DecodeFailure::Error(
                DecodingError::new(
                    rest.len(),
                    ErrorKind::LengthValueNotUsize { value: length_integer },
                ),
            ),
        ),
    }
}

/// A span of validity, in minutes of the day.
#[derive(Clone, Debug, PartialEq, Eq)]
pub struct TimeRangeType {
    pub from_time: Integer,
    pub until_time: Integer,
}

impl TimeRangeType {
    pub fn try_from_uper<'a>(rest: &'a [bool]) -> (r: ParseResult<'a, Self>)
        ensures
            r matches Ok((remaining, _)) ==> is_suffix_of(remaining@, rest@) && remaining@.len()
                < rest@.len(),
            ({
                let b = rest@;
                match r {
                    Ok((remaining, v)) => (match asn1_uper::spec_decode_constrained_int(
                        b,
                        0,
                        1439,
                    ) {
                        asn1_uper::NumberOutcome::Taken { consumed: c1, value: t1 } => (
                        match asn1_uper::spec_decode_constrained_int(b.skip(c1), 0, 1439) {
                            asn1_uper::NumberOutcome::Taken { consumed: c2, value: t2 } => {
                                &&& v.from_time@ == t1
                                &&& v.until_time@ == t2
                                &&& remaining@ == b.skip(c1).skip(c2)
                            },
                            _ => false,
                        }),
                        _ => false,
                    }),
                    Err(_) => true,
                }
            }),
    {
        let (rest, from_time) = decode_constrained_integer_field(rest, 0, 1439)?;
        let (rest, until_time) = decode_constrained_integer_field(rest, 0, 1439)?;
        let sequence = Self { from_time, until_time };
        Ok((rest, sequence))
    }
}

/// An opaque issuer-specific extension.
#[derive(Clone, Debug, PartialEq, Eq)]
pub struct ExtensionData {
    pub extension_id: String,
    pub extension_data: Vec<u8>,
}

impl ExtensionData {
    pub fn try_from_uper<'a>(rest: &'a [bool]) -> (r: ParseResult<'a, Self>)
        ensures
            r matches Ok((remaining, _)) ==> is_suffix_of(remaining@, rest@) && remaining@.len()
                < rest@.len(),
            ({
                let b = rest@;
                match r {
                    Ok((remaining, v)) => (match asn1_uper::spec_decode_string(
                        b,
                        WholeNumberConstraint::Unconstrained,
                        7,
                    ) {
                        asn1_uper::BytesOutcome::Taken { consumed: c1, bytes: id_bytes } => (
                        match asn1_uper::spec_decode_string(
                            b.skip(c1),
                            WholeNumberConstraint::Unconstrained,
                            8,
                        ) {
                            asn1_uper::BytesOutcome::Taken { consumed: c2, bytes: data } => {
                                &&& vstd::utf8::valid_utf8(id_bytes)
                                &&& v.extension_id@ == vstd::utf8::decode_utf8(id_bytes)
                                &&& v.extension_data@ == data
                                &&& remaining@ == b.skip(c1).skip(c2)
                            },
                            _ => false,
                        }),
                        _ => false,
                    }),
                    Err(_) => true,
                }
            }),
    {
        let (rest, extension_id) = decode_ia5_string_field(rest)?;
        let (rest, extension_data) = decode_octet_string_field(rest)?;
        let sequence = Self { extension_id, extension_data };
        Ok((rest, sequence))
    }
}

/// A delta position relative to a polygon's first edge.
#[derive(Clone, Debug, PartialEq, Eq)]
pub struct DeltaCoordinates {
    pub longitude: Integer,
    pub latitude: Integer,
}

impl DeltaCoordinates {
    pub fn try_from_uper<'a>(rest: &'a [bool]) -> (r: ParseResult<'a, Self>)
        ensures
            r matches Ok((remaining, _)) ==> is_suffix_of(remaining@, rest@) && remaining@.len()
                < rest@.len(),
            ({
                let b = rest@;
                match r {
                    Ok((remaining, v)) => (match asn1_uper::spec_decode_octet_int(b, None) {
                        asn1_uper::NumberOutcome::Taken { consumed: c1, value: lon } => (
                        match asn1_uper::spec_decode_octet_int(b.skip(c1), None) {
                            asn1_uper::NumberOutcome::Taken { consumed: c2, value: lat } => {
                                &&& v.longitude@ == lon
                                &&& v.latitude@ == lat
                                &&& remaining@ == b.skip(c1).skip(c2)
                            },
                            _ => false,
                        }),
                        _ => false,
                    }),
                    Err(_) => true,
                }
            }),
    {
        let (rest, longitude) = decode_unconstrained_integer_field(rest)?;
        let (rest, latitude) = decode_unconstrained_integer_field(rest)?;
        let sequence = Self { longitude, latitude };
        Ok((rest, sequence))
    }
}

/// What a delay confirmation confirms.
#[derive(Clone, Copy, Debug, PartialEq, Eq)]
pub enum ConfirmationType {
    TrainDelayConfirmation,
    TravelerDelayConfirmation,
    TrainLinkedTicketDelay,
}

/// The wire index under which the schema declares each alternative.
pub open spec fn spec_confirmation_type_index(v: ConfirmationType) -> int {
    match v {
        ConfirmationType::TrainDelayConfirmation => 0,
        ConfirmationType::TravelerDelayConfirmation => 1,
        ConfirmationType::TrainLinkedTicketDelay => 2,
    }
}

impl ConfirmationType {
    pub fn try_from_uper<'a>(rest: &'a [bool]) -> (r: ParseResult<'a, Self>)
        ensures
            ({
                let o = spec_decode_enum_index(rest@, true, 2);
                match r {
                    Ok((remaining, v)) => (match o {
                        IndexOutcome::Taken { consumed, index } => remaining@
                            == rest@.skip(consumed) && is_suffix_of(remaining@, rest@)
                            && remaining@.len() < rest@.len() && index == spec_confirmation_type_index(v),
                        _ => false,
                    }),
                    Err(DecodeFailure::Incomplete { needed }) => (match o {
                        IndexOutcome::Incomplete { needed: n } => needed == n,
                        _ => false,
                    }),
                    Err(DecodeFailure::Error(e)) => (match o {
                        IndexOutcome::Extended => e.bits_remaining == rest@.len() - 1
                            && e.kind matches ErrorKind::UnsupportedExtension {  },
                        IndexOutcome::Taken { consumed, index } => index > 2
                            && e.bits_remaining == rest@.len() - consumed && (e.kind
                            matches ErrorKind::InvalidEnumerated { value } && value@
                            == index),
                        _ => false,
                    }),
                }
            }),
    {
        let (rest2, _) = decode_extension_marker(rest)?;
        let (rest3, value_index) = decode_enumerated_index(rest2, 2)?;
        proof {
            let w = asn1_uper::shift_count(2) as int;
            assert(rest@.skip(1).skip(w) =~= rest@.skip(1 + w));
        }
        let enum_value = match value_index {
            0 => Self::TrainDelayConfirmation,
            1 => Self::TravelerDelayConfirmation,
            2 => Self::TrainLinkedTicketDelay,
            _ => {
                return Err(
                    DecodeFailure::Error(
                        DecodingError::new(
                            rest3.len(),
                            ErrorKind::InvalidEnumerated {
                                value: Integer::from_usize(value_index),
                            },
                        ),
                    ),
                );
            },
        };
        Ok((rest3, enum_value))
    }
}

/// Which code table a station code refers to.
#[derive(Clone, Copy, Debug, PartialEq, Eq)]
pub enum CodeTableType {
    StationUic,
    StationUicReservation,
    StationEra,
    LocalCarrierStationCodeTable,
    ProprietaryIssuerStationCodeTable,
}

/// The wire index under which the schema declares each alternative.
pub open spec fn spec_code_table_type_index(v: CodeTableType) -> int {
    match v {
        CodeTableType::StationUic => 0,
        CodeTableType::StationUicReservation => 1,
        CodeTableType::StationEra => 2,
        CodeTableType::LocalCarrierStationCodeTable => 3,
        CodeTableType::ProprietaryIssuerStationCodeTable => 4,
    }
}

impl CodeTableType {
    pub fn try_from_uper<'a>(rest: &'a [bool]) -> (r: ParseResult<'a, Self>)
        ensures
            ({
                let o = spec_decode_enum_index(rest@, false, 4);
                match r {
                    Ok((remaining, v)) => (match o {
                        IndexOutcome::Taken { consumed, index } => remaining@
                            == rest@.skip(consumed) && is_suffix_of(remaining@, rest@)
                            && remaining@.len() < rest@.len() && index == spec_code_table_type_index(v),
                        _ => false,
                    }),
                    Err(DecodeFailure::Incomplete { needed }) => (match o {
                        IndexOutcome::Incomplete { needed: n } => needed == n,
                        _ => false,
                    }),
                    Err(DecodeFailure::Error(e)) => (match o {
                        IndexOutcome::Extended => e.bits_remaining == rest@.len() - 1
                            && e.kind matches ErrorKind::UnsupportedExtension {  },
                        IndexOutcome::Taken { consumed, index } => index > 4
                            && e.bits_remaining == rest@.len() - consumed && (e.kind
                            matches ErrorKind::InvalidEnumerated { value } && value@
                            == index),
                        _ => false,
                    }),
                }
            }),
    {
        let (rest3, value_index) = decode_enumerated_index(rest, 4)?;
        proof {
            assert(rest@.skip(0) =~= rest@);
        }
        let enum_value = match value_index {
            0 => Self::StationUic,
            1 => Self::StationUicReservation,
            2 => Self::StationEra,
            3 => Self::LocalCarrierStationCodeTable,
            4 => Self::ProprietaryIssuerStationCodeTable,
            _ => {
                return Err(
                    DecodeFailure::Error(
                        DecodingError::new(
                            rest3.len(),
                            ErrorKind::InvalidEnumerated {
                                value: Integer::from_usize(value_index),
                            },
                        ),
                    ),
                );
            },
        };
        Ok((rest3, enum_value))
    }
}

/// The kind of reserved service.
#[derive(Clone, Copy, Debug, PartialEq, Eq)]
pub enum ServiceType {
    Seat,
    Couchette,
    Berth,
    Carcarriage,
}

/// The wire index under which the schema declares each alternative.
pub open spec fn spec_service_type_index(v: ServiceType) -> int {
    match v {
        ServiceType::Seat => 0,
        ServiceType::Couchette => 1,
        ServiceType::Berth => 2,
        ServiceType::Carcarriage => 3,
    }
}

impl ServiceType {
    pub fn try_from_uper<'a>(rest: &'a [bool]) -> (r: ParseResult<'a, Self>)
        ensures
            ({
                let o = spec_decode_enum_index(rest@, false, 3);
                match r {
                    Ok((remaining, v)) => (match o {
                        IndexOutcome::Taken { consumed, index } => remaining@
                            == rest@.skip(consumed) && is_suffix_of(remaining@, rest@)
                            && remaining@.len() < rest@.len() && index == spec_service_type_index(v),
                        _ => false,
                    }),
                    Err(DecodeFailure::Incomplete { needed }) => (match o {
                        IndexOutcome::Incomplete { needed: n } => needed == n,
                        _ => false,
                    }),
                    Err(DecodeFailure::Error(e)) => (match o {
                        IndexOutcome::Extended => e.bits_remaining == rest@.len() - 1
                            && e.kind matches ErrorKind::UnsupportedExtension {  },
                        IndexOutcome::Taken { consumed, index } => index > 3
                            && e.bits_remaining == rest@.len() - consumed && (e.kind
                            matches ErrorKind::InvalidEnumerated { value } && value@
                            == index),
                        _ => false,
                    }),
                }
            }),
    {
        let (rest3, value_index) = decode_enumerated_index(rest, 3)?;
        proof {
            assert(rest@.skip(0) =~= rest@);
        }
        let enum_value = match value_index {
            0 => Self::Seat,
            1 => Self::Couchette,
            2 => Self::Berth,
            3 => Self::Carcarriage,
            _ => {
                return Err(
                    DecodeFailure::Error(
                        DecodingError::new(
                            rest3.len(),
                            ErrorKind::InvalidEnumerated {
                                value: Integer::from_usize(value_index),
                            },
                        ),
                    ),
                );
            },
        };
        Ok((rest3, enum_value))
    }
}

/// The category of a traveler.
#[derive(Clone, Copy, Debug, PartialEq, Eq)]
pub enum PassengerType {
    Adult,
    Senior,
    Child,
    Youth,
    Dog,
    Bicycle,
    FreeAddonPassenger,
    FreeAddonChild,
}

/// The wire index under which the schema declares each alternative.
pub open spec fn spec_passenger_type_index(v: PassengerType) -> int {
    match v {
        PassengerType::Adult => 0,
        PassengerType::Senior => 1,
        PassengerType::Child => 2,
        PassengerType::Youth => 3,
        PassengerType::Dog => 4,
        PassengerType::Bicycle => 5,
        PassengerType::FreeAddonPassenger => 6,
        PassengerType::FreeAddonChild => 7,
    }
}

impl PassengerType {
    pub fn try_from_uper<'a>(rest: &'a [bool]) -> (r: ParseResult<'a, Self>)
        ensures
            ({
                let o = spec_decode_enum_index(rest@, true, 7);
                match r {
                    Ok((remaining, v)) => (match o {
                        IndexOutcome::Taken { consumed, index } => remaining@
                            == rest@.skip(consumed) && is_suffix_of(remaining@, rest@)
                            && remaining@.len() < rest@.len() && index == spec_passenger_type_index(v),
                        _ => false,
                    }),
                    Err(DecodeFailure::Incomplete { needed }) => (match o {
                        IndexOutcome::Incomplete { needed: n } => needed == n,
                        _ => false,
                    }),
                    Err(DecodeFailure::Error(e)) => (match o {
                        IndexOutcome::Extended => e.bits_remaining == rest@.len() - 1
                            && e.kind matches ErrorKind::UnsupportedExtension {  },
                        IndexOutcome::Taken { consumed, index } => index > 7
                            && e.bits_remaining == rest@.len() - consumed && (e.kind
                            matches ErrorKind::InvalidEnumerated { value } && value@
                            == index),
                        _ => false,
                    }),
                }
            }),
    {
        let (rest2, _) = decode_extension_marker(rest)?;
        let (rest3, value_index) = decode_enumerated_index(rest2, 7)?;
        proof {
            let w = asn1_uper::shift_count(7) as int;
            assert(rest@.skip(1).skip(w) =~= rest@.skip(1 + w));
        }
        let enum_value = match value_index {
            0 => Self::Adult,
            1 => Self::Senior,
            2 => Self::Child,
            3 => Self::Youth,
            4 => Self::Dog,
            5 => Self::Bicycle,
            6 => Self::FreeAddonPassenger,
            7 => Self::FreeAddonChild,
            _ => {
                return Err(
                    DecodeFailure::Error(
                        DecodingError::new(
                            rest3.len(),
                            ErrorKind::InvalidEnumerated {
                                value: Integer::from_usize(value_index),
                            },
                        ),
                    ),
                );
            },
        };
        Ok((rest3, enum_value))
    }
}

/// The kind of ticket a link points at.
#[derive(Clone, Copy, Debug, PartialEq, Eq)]
pub enum TicketType {
    OpenTicket,
    Pass,
    Reservation,
    CarCarriageReservation,
}

/// The wire index under which the schema declares each alternative.
pub open spec fn spec_ticket_type_index(v: TicketType) -> int {
    match v {
        TicketType::OpenTicket => 0,
        TicketType::Pass => 1,
        TicketType::Reservation => 2,
        TicketType::CarCarriageReservation => 3,
    }
}

impl TicketType {
    pub fn try_from_uper<'a>(rest: &'a [bool]) -> (r: ParseResult<'a, Self>)
        ensures
            ({
                let o = spec_decode_enum_index(rest@, true, 3);
                match r {
                    Ok((remaining, v)) => (match o {
                        IndexOutcome::Taken { consumed, index } => remaining@
                            == rest@.skip(consumed) && is_suffix_of(remaining@, rest@)
                            && remaining@.len() < rest@.len() && index == spec_ticket_type_index(v),
                        _ => false,
                    }),
                    Err(DecodeFailure::Incomplete { needed }) => (match o {
                        IndexOutcome::Incomplete { needed: n } => needed == n,
                        _ => false,
                    }),
                    Err(DecodeFailure::Error(e)) => (match o {
                        IndexOutcome::Extended => e.bits_remaining == rest@.len() - 1
                            && e.kind matches ErrorKind::UnsupportedExtension {  },
                        IndexOutcome::Taken { consumed, index } => index > 3
                            && e.bits_remaining == rest@.len() - consumed && (e.kind
                            matches ErrorKind::InvalidEnumerated { value } && value@
                            == index),
                        _ => false,
                    }),
                }
            }),
    {
        let (rest2, _) = decode_extension_marker(rest)?;
        let (rest3, value_index) = decode_enumerated_index(rest2, 3)?;
        proof {
            let w = asn1_uper::shift_count(3) as int;
            assert(rest@.skip(1).skip(w) =~= rest@.skip(1 + w));
        }
        let enum_value = match value_index {
            0 => Self::OpenTicket,
            1 => Self::Pass,
            2 => Self::Reservation,
            3 => Self::CarCarriageReservation,
            _ => {
                return Err(
                    DecodeFailure::Error(
                        DecodingError::new(
                            rest3.len(),
                            ErrorKind::InvalidEnumerated {
                                value: Integer::from_usize(value_index),
                            },
                        ),
                    ),
                );
            },
        };
        Ok((rest3, enum_value))
    }
}

/// How a linked ticket relates to this one.
#[derive(Clone, Copy, Debug, PartialEq, Eq)]
pub enum LinkMode {
    IssuedTogether,
    OnlyValidInCombination,
}

/// The wire index under which the schema declares each alternative.
pub open spec fn spec_link_mode_index(v: LinkMode) -> int {
    match v {
        LinkMode::IssuedTogether => 0,
        LinkMode::OnlyValidInCombination => 1,
    }
}

impl LinkMode {
    pub fn try_from_uper<'a>(rest: &'a [bool]) -> (r: ParseResult<'a, Self>)
        ensures
            ({
                let o = spec_decode_enum_index(rest@, true, 1);
                match r {
                    Ok((remaining, v)) => (match o {
                        IndexOutcome::Taken { consumed, index } => remaining@
                            == rest@.skip(consumed) && is_suffix_of(remaining@, rest@)
                            && remaining@.len() < rest@.len() && index == spec_link_mode_index(v),
                        _ => false,
                    }),
                    Err(DecodeFailure::Incomplete { needed }) => (match o {
                        IndexOutcome::Incomplete { needed: n } => needed == n,
                        _ => false,
                    }),
                    Err(DecodeFailure::Error(e)) => (match o {
                        IndexOutcome::Extended => e.bits_remaining == rest@.len() - 1
                            && e.kind matches ErrorKind::UnsupportedExtension {  },
                        IndexOutcome::Taken { consumed, index } => index > 1
                            && e.bits_remaining == rest@.len() - consumed && (e.kind
                            matches ErrorKind::InvalidEnumerated { value } && value@
                            == index),
                        _ => false,
                    }),
                }
            }),
    {
        let (rest2, _) = decode_extension_marker(rest)?;
        let (rest3, value_index) = decode_enumerated_index(rest2, 1)?;
        proof {
            let w = asn1_uper::shift_count(1) as int;
            assert(rest@.skip(1).skip(w) =~= rest@.skip(1 + w));
        }
        let enum_value = match value_index {
            0 => Self::IssuedTogether,
            1 => Self::OnlyValidInCombination,
            _ => {
                return Err(
                    DecodeFailure::Error(
                        DecodingError::new(
                            rest3.len(),
                            ErrorKind::InvalidEnumerated {
                                value: Integer::from_usize(value_index),
                            },
                        ),
                    ),
                );
            },
        };
        Ok((rest3, enum_value))
    }
}

/// What a price amount stands for.
#[derive(Clone, Copy, Debug, PartialEq, Eq)]
pub enum PriceTypeType {
    NoPrice,
    ReservationFee,
    Supplement,
    TravelPrice,
}

/// The wire index under which the schema declares each alternative.
pub open spec fn spec_price_type_type_index(v: PriceTypeType) -> int {
    match v {
        PriceTypeType::NoPrice => 0,
        PriceTypeType::ReservationFee => 1,
        PriceTypeType::Supplement => 2,
        PriceTypeType::TravelPrice => 3,
    }
}

impl PriceTypeType {
    pub fn try_from_uper<'a>(rest: &'a [bool]) -> (r: ParseResult<'a, Self>)
        ensures
            ({
                let o = spec_decode_enum_index(rest@, false, 3);
                match r {
                    Ok((remaining, v)) => (match o {
                        IndexOutcome::Taken { consumed, index } => remaining@
                            == rest@.skip(consumed) && is_suffix_of(remaining@, rest@)
                            && remaining@.len() < rest@.len() && index == spec_price_type_type_index(v),
                        _ => false,
                    }),
                    Err(DecodeFailure::Incomplete { needed }) => (match o {
                        IndexOutcome::Incomplete { needed: n } => needed == n,
                        _ => false,
                    }),
                    Err(DecodeFailure::Error(e)) => (match o {
                        IndexOutcome::Extended => e.bits_remaining == rest@.len() - 1
                            && e.kind matches ErrorKind::UnsupportedExtension {  },
                        IndexOutcome::Taken { consumed, index } => index > 3
                            && e.bits_remaining == rest@.len() - consumed && (e.kind
                            matches ErrorKind::InvalidEnumerated { value } && value@
                            == index),
                        _ => false,
                    }),
                }
            }),
    {
        let (rest3, value_index) = decode_enumerated_index(rest, 3)?;
        proof {
            assert(rest@.skip(0) =~= rest@);
        }
        let enum_value = match value_index {
            0 => Self::NoPrice,
            1 => Self::ReservationFee,
            2 => Self::Supplement,
            3 => Self::TravelPrice,
            _ => {
                return Err(
                    DecodeFailure::Error(
                        DecodingError::new(
                            rest3.len(),
                            ErrorKind::InvalidEnumerated {
                                value: Integer::from_usize(value_index),
                            },
                        ),
                    ),
                );
            },
        };
        Ok((rest3, enum_value))
    }
}

/// The kind of berth in a sleeper.
#[derive(Clone, Copy, Debug, PartialEq, Eq)]
pub enum BerthTypeType {
    Single,
    Special,
    Double,
    T2,
    T3,
    T4,
}

/// The wire index under which the schema declares each alternative.
pub open spec fn spec_berth_type_type_index(v: BerthTypeType) -> int {
    match v {
        BerthTypeType::Single => 0,
        BerthTypeType::Special => 1,
        BerthTypeType::Double => 2,
        BerthTypeType::T2 => 3,
        BerthTypeType::T3 => 4,
        BerthTypeType::T4 => 5,
    }
}

impl BerthTypeType {
    pub fn try_from_uper<'a>(rest: &'a [bool]) -> (r: ParseResult<'a, Self>)
        ensures
            ({
                let o = spec_decode_enum_index(rest@, false, 5);
                match r {
                    Ok((remaining, v)) => (match o {
                        IndexOutcome::Taken { consumed, index } => remaining@
                            == rest@.skip(consumed) && is_suffix_of(remaining@, rest@)
                            && remaining@.len() < rest@.len() && index == spec_berth_type_type_index(v),
                        _ => false,
                    }),
                    Err(DecodeFailure::Incomplete { needed }) => (match o {
                        IndexOutcome::Incomplete { needed: n } => needed == n,
                        _ => false,
                    }),
                    Err(DecodeFailure::Error(e)) => (match o {
                        IndexOutcome::Extended => e.bits_remaining == rest@.len() - 1
                            && e.kind matches ErrorKind::UnsupportedExtension {  },
                        IndexOutcome::Taken { consumed, index } => index > 5
                            && e.bits_remaining == rest@.len() - consumed && (e.kind
                            matches ErrorKind::InvalidEnumerated { value } && value@
                            == index),
                        _ => false,
                    }),
                }
            }),
    {
        let (rest3, value_index) = decode_enumerated_index(rest, 5)?;
        proof {
            assert(rest@.skip(0) =~= rest@);
        }
        let enum_value = match value_index {
            0 => Self::Single,
            1 => Self::Special,
            2 => Self::Double,
            3 => Self::T2,
            4 => Self::T3,
            5 => Self::T4,
            _ => {
                return Err(
                    DecodeFailure::Error(
                        DecodingError::new(
                            rest3.len(),
                            ErrorKind::InvalidEnumerated {
                                value: Integer::from_usize(value_index),
                            },
                        ),
                    ),
                );
            },
        };
        Ok((rest3, enum_value))
    }
}

/// The gender assignment of a compartment.
#[derive(Clone, Copy, Debug, PartialEq, Eq)]
pub enum CompartmentGenderType {
    Unspecified,
    Family,
    Female,
    Male,
    Mixed,
}

/// The wire index under which the schema declares each alternative.
pub open spec fn spec_compartment_gender_type_index(v: CompartmentGenderType) -> int {
    match v {
        CompartmentGenderType::Unspecified => 0,
        CompartmentGenderType::Family => 1,
        CompartmentGenderType::Female => 2,
        CompartmentGenderType::Male => 3,
        CompartmentGenderType::Mixed => 4,
    }
}

impl CompartmentGenderType {
    pub fn try_from_uper<'a>(rest: &'a [bool]) -> (r: ParseResult<'a, Self>)
        ensures
            ({
                let o = spec_decode_enum_index(rest@, true, 4);
                match r {
                    Ok((remaining, v)) => (match o {
                        IndexOutcome::Taken { consumed, index } => remaining@
                            == rest@.skip(consumed) && is_suffix_of(remaining@, rest@)
                            && remaining@.len() < rest@.len() && index == spec_compartment_gender_type_index(v),
                        _ => false,
                    }),
                    Err(DecodeFailure::Incomplete { needed }) => (match o {
                        IndexOutcome::Incomplete { needed: n } => needed == n,
                        _ => false,
                    }),
                    Err(DecodeFailure::Error(e)) => (match o {
                        IndexOutcome::Extended => e.bits_remaining == rest@.len() - 1
                            && e.kind matches ErrorKind::UnsupportedExtension {  },
                        IndexOutcome::Taken { consumed, index } => index > 4
                            && e.bits_remaining == rest@.len() - consumed && (e.kind
                            matches ErrorKind::InvalidEnumerated { value } && value@
                            == index),
                        _ => false,
                    }),
                }
            }),
    {
        let (rest2, _) = decode_extension_marker(rest)?;
        let (rest3, value_index) = decode_enumerated_index(rest2, 4)?;
        proof {
            let w = asn1_uper::shift_count(4) as int;
            assert(rest@.skip(1).skip(w) =~= rest@.skip(1 + w));
        }
        let enum_value = match value_index {
            0 => Self::Unspecified,
            1 => Self::Family,
            2 => Self::Female,
            3 => Self::Male,
            4 => Self::Mixed,
            _ => {
                return Err(
                    DecodeFailure::Error(
                        DecodingError::new(
                            rest3.len(),
                            ErrorKind::InvalidEnumerated {
                                value: Integer::from_usize(value_index),
                            },
                        ),
                    ),
                );
            },
        };
        Ok((rest3, enum_value))
    }
}

/// The gender of a traveler.
#[derive(Clone, Copy, Debug, PartialEq, Eq)]
pub enum GenderType {
    Unspecified,
    Female,
    Male,
    Other,
}

/// The wire index under which the schema declares each alternative.
pub open spec fn spec_gender_type_index(v: GenderType) -> int {
    match v {
        GenderType::Unspecified => 0,
        GenderType::Female => 1,
        GenderType::Male => 2,
        GenderType::Other => 3,
    }
}

impl GenderType {
    pub fn try_from_uper<'a>(rest: &'a [bool]) -> (r: ParseResult<'a, Self>)
        ensures
            ({
                let o = spec_decode_enum_index(rest@, true, 3);
                match r {
                    Ok((remaining, v)) => (match o {
                        IndexOutcome::Taken { consumed, index } => remaining@
                            == rest@.skip(consumed) && is_suffix_of(remaining@, rest@)
                            && remaining@.len() < rest@.len() && index == spec_gender_type_index(v),
                        _ => false,
                    }),
                    Err(DecodeFailure::Incomplete { needed }) => (match o {
                        IndexOutcome::Incomplete { needed: n } => needed == n,
                        _ => false,
                    }),
                    Err(DecodeFailure::Error(e)) => (match o {
                        IndexOutcome::Extended => e.bits_remaining == rest@.len() - 1
                            && e.kind matches ErrorKind::UnsupportedExtension {  },
                        IndexOutcome::Taken { consumed, index } => index > 3
                            && e.bits_remaining == rest@.len() - consumed && (e.kind
                            matches ErrorKind::InvalidEnumerated { value } && value@
                            == index),
                        _ => false,
                    }),
                }
            }),
    {
        let (rest2, _) = decode_extension_marker(rest)?;
        let (rest3, value_index) = decode_enumerated_index(rest2, 3)?;
        proof {
            let w = asn1_uper::shift_count(3) as int;
            assert(rest@.skip(1).skip(w) =~= rest@.skip(1 + w));
        }
        let enum_value = match value_index {
            0 => Self::Unspecified,
            1 => Self::Female,
            2 => Self::Male,
            3 => Self::Other,
            _ => {
                return Err(
                    DecodeFailure::Error(
                        DecodingError::new(
                            rest3.len(),
                            ErrorKind::InvalidEnumerated {
                                value: Integer::from_usize(value_index),
                            },
                        ),
                    ),
                );
            },
        };
        Ok((rest3, enum_value))
    }
}

/// The travel class of a service.
#[derive(Clone, Copy, Debug, PartialEq, Eq)]
pub enum TravelClassType {
    NotApplicable,
    First,
    Second,
    Tourist,
    Comfort,
    Premium,
    Business,
    All,
    PremiumFirst,
    StandardFirst,
    PremiumSecond,
    StandardSecond,
}

/// The wire index under which the schema declares each alternative.
pub open spec fn spec_travel_class_type_index(v: TravelClassType) -> int {
    match v {
        TravelClassType::NotApplicable => 0,
        TravelClassType::First => 1,
        TravelClassType::Second => 2,
        TravelClassType::Tourist => 3,
        TravelClassType::Comfort => 4,
        TravelClassType::Premium => 5,
        TravelClassType::Business => 6,
        TravelClassType::All => 7,
        TravelClassType::PremiumFirst => 8,
        TravelClassType::StandardFirst => 9,
        TravelClassType::PremiumSecond => 10,
        TravelClassType::StandardSecond => 11,
    }
}

impl TravelClassType {
    pub fn try_from_uper<'a>(rest: &'a [bool]) -> (r: ParseResult<'a, Self>)
        ensures
            ({
                let o = spec_decode_enum_index(rest@, true, 11);
                match r {
                    Ok((remaining, v)) => (match o {
                        IndexOutcome::Taken { consumed, index } => remaining@
                            == rest@.skip(consumed) && is_suffix_of(remaining@, rest@)
                            && remaining@.len() < rest@.len() && index == spec_travel_class_type_index(v),
                        _ => false,
                    }),
                    Err(DecodeFailure::Incomplete { needed }) => (match o {
                        IndexOutcome::Incomplete { needed: n } => needed == n,
                        _ => false,
                    }),
                    Err(DecodeFailure::Error(e)) => (match o {
                        IndexOutcome::Extended => e.bits_remaining == rest@.len() - 1
                            && e.kind matches ErrorKind::UnsupportedExtension {  },
                        IndexOutcome::Taken { consumed, index } => index > 11
                            && e.bits_remaining == rest@.len() - consumed && (e.kind
                            matches ErrorKind::InvalidEnumerated { value } && value@
                            == index),
                        _ => false,
                    }),
                }
            }),
    {
        let (rest2, _) = decode_extension_marker(rest)?;
        let (rest3, value_index) = decode_enumerated_index(rest2, 11)?;
        proof {
            let w = asn1_uper::shift_count(11) as int;
            assert(rest@.skip(1).skip(w) =~= rest@.skip(1 + w));
        }
        let enum_value = match value_index {
            0 => Self::NotApplicable,
            1 => Self::First,
            2 => Self::Second,
            3 => Self::Tourist,
            4 => Self::Comfort,
            5 => Self::Premium,
            6 => Self::Business,
            7 => Self::All,
            8 => Self::PremiumFirst,
            9 => Self::StandardFirst,
            10 => Self::PremiumSecond,
            11 => Self::StandardSecond,
            _ => {
                return Err(
                    DecodeFailure::Error(
                        DecodingError::new(
                            rest3.len(),
                            ErrorKind::InvalidEnumerated {
                                value: Integer::from_usize(value_index),
                            },
                        ),
                    ),
                );
            },
        };
        Ok((rest3, enum_value))
    }
}

/// The geodetic system of a coordinate.
#[derive(Clone, Copy, Debug, PartialEq, Eq)]
pub enum GeoCoordinateSystemType {
    Wgs84,
    Grs80,
}

/// The wire index under which the schema declares each alternative.
pub open spec fn spec_geo_coordinate_system_type_index(v: GeoCoordinateSystemType) -> int {
    match v {
        GeoCoordinateSystemType::Wgs84 => 0,
        GeoCoordinateSystemType::Grs80 => 1,
    }
}

impl GeoCoordinateSystemType {
    pub fn try_from_uper<'a>(rest: &'a [bool]) -> (r: ParseResult<'a, Self>)
        ensures
            ({
                let o = spec_decode_enum_index(rest@, false, 1);
                match r {
                    Ok((remaining, v)) => (match o {
                        IndexOutcome::Taken { consumed, index } => remaining@
                            == rest@.skip(consumed) && is_suffix_of(remaining@, rest@)
                            && remaining@.len() < rest@.len() && index == spec_geo_coordinate_system_type_index(v),
                        _ => false,
                    }),
                    Err(DecodeFailure::Incomplete { needed }) => (match o {
                        IndexOutcome::Incomplete { needed: n } => needed == n,
                        _ => false,
                    }),
                    Err(DecodeFailure::Error(e)) => (match o {
                        IndexOutcome::Extended => e.bits_remaining == rest@.len() - 1
                            && e.kind matches ErrorKind::UnsupportedExtension {  },
                        IndexOutcome::Taken { consumed, index } => index > 1
                            && e.bits_remaining == rest@.len() - consumed && (e.kind
                            matches ErrorKind::InvalidEnumerated { value } && value@
                            == index),
                        _ => false,
                    }),
                }
            }),
    {
        let (rest3, value_index) = decode_enumerated_index(rest, 1)?;
        proof {
            assert(rest@.skip(0) =~= rest@);
        }
        let enum_value = match value_index {
            0 => Self::Wgs84,
            1 => Self::Grs80,
            _ => {
                return Err(
                    DecodeFailure::Error(
                        DecodingError::new(
                            rest3.len(),
                            ErrorKind::InvalidEnumerated {
                                value: Integer::from_usize(value_index),
                            },
                        ),
                    ),
                );
            },
        };
        Ok((rest3, enum_value))
    }
}

/// The angular unit of a coordinate.
#[derive(Clone, Copy, Debug, PartialEq, Eq)]
pub enum GeoUnitType {
    MicroDegree,
    TenthmilliDegree,
    MilliDegree,
    CentiDegree,
    DeciDegree,
}

/// The wire index under which the schema declares each alternative.
pub open spec fn spec_geo_unit_type_index(v: GeoUnitType) -> int {
    match v {
        GeoUnitType::MicroDegree => 0,
        GeoUnitType::TenthmilliDegree => 1,
        GeoUnitType::MilliDegree => 2,
        GeoUnitType::CentiDegree => 3,
        GeoUnitType::DeciDegree => 4,
    }
}

impl GeoUnitType {
    pub fn try_from_uper<'a>(rest: &'a [bool]) -> (r: ParseResult<'a, Self>)
        ensures
            ({
                let o = spec_decode_enum_index(rest@, false, 4);
                match r {
                    Ok((remaining, v)) => (match o {
                        IndexOutcome::Taken { consumed, index } => remaining@
                            == rest@.skip(consumed) && is_suffix_of(remaining@, rest@)
                            && remaining@.len() < rest@.len() && index == spec_geo_unit_type_index(v),
                        _ => false,
                    }),
                    Err(DecodeFailure::Incomplete { needed }) => (match o {
                        IndexOutcome::Incomplete { needed: n } => needed == n,
                        _ => false,
                    }),
                    Err(DecodeFailure::Error(e)) => (match o {
                        IndexOutcome::Extended => e.bits_remaining == rest@.len() - 1
                            && e.kind matches ErrorKind::UnsupportedExtension {  },
                        IndexOutcome::Taken { consumed, index } => index > 4
                            && e.bits_remaining == rest@.len() - consumed && (e.kind
                            matches ErrorKind::InvalidEnumerated { value } && value@
                            == index),
                        _ => false,
                    }),
                }
            }),
    {
        let (rest3, value_index) = decode_enumerated_index(rest, 4)?;
        proof {
            assert(rest@.skip(0) =~= rest@);
        }
        let enum_value = match value_index {
            0 => Self::MicroDegree,
            1 => Self::TenthmilliDegree,
            2 => Self::MilliDegree,
            3 => Self::CentiDegree,
            4 => Self::DeciDegree,
            _ => {
                return Err(
                    DecodeFailure::Error(
                        DecodingError::new(
                            rest3.len(),
                            ErrorKind::InvalidEnumerated {
                                value: Integer::from_usize(value_index),
                            },
                        ),
                    ),
                );
            },
        };
        Ok((rest3, enum_value))
    }
}

/// The hemisphere of a longitude.
#[derive(Clone, Copy, Debug, PartialEq, Eq)]
pub enum HemisphereLongitudeType {
    North,
    South,
}

/// The wire index under which the schema declares each alternative.
pub open spec fn spec_hemisphere_longitude_type_index(v: HemisphereLongitudeType) -> int {
    match v {
        HemisphereLongitudeType::North => 0,
        HemisphereLongitudeType::South => 1,
    }
}

impl HemisphereLongitudeType {
    pub fn try_from_uper<'a>(rest: &'a [bool]) -> (r: ParseResult<'a, Self>)
        ensures
            ({
                let o = spec_decode_enum_index(rest@, false, 1);
                match r {
                    Ok((remaining, v)) => (match o {
                        IndexOutcome::Taken { consumed, index } => remaining@
                            == rest@.skip(consumed) && is_suffix_of(remaining@, rest@)
                            && remaining@.len() < rest@.len() && index == spec_hemisphere_longitude_type_index(v),
                        _ => false,
                    }),
                    Err(DecodeFailure::Incomplete { needed }) => (match o {
                        IndexOutcome::Incomplete { needed: n } => needed == n,
                        _ => false,
                    }),
                    Err(DecodeFailure::Error(e)) => (match o {
                        IndexOutcome::Extended => e.bits_remaining == rest@.len() - 1
                            && e.kind matches ErrorKind::UnsupportedExtension {  },
                        IndexOutcome::Taken { consumed, index } => index > 1
                            && e.bits_remaining == rest@.len() - consumed && (e.kind
                            matches ErrorKind::InvalidEnumerated { value } && value@
                            == index),
                        _ => false,
                    }),
                }
            }),
    {
        let (rest3, value_index) = decode_enumerated_index(rest, 1)?;
        proof {
            assert(rest@.skip(0) =~= rest@);
        }
        let enum_value = match value_index {
            0 => Self::North,
            1 => Self::South,
            _ => {
                return Err(
                    DecodeFailure::Error(
                        DecodingError::new(
                            rest3.len(),
                            ErrorKind::InvalidEnumerated {
                                value: Integer::from_usize(value_index),
                            },
                        ),
                    ),
                );
            },
        };
        Ok((rest3, enum_value))
    }
}

/// The hemisphere of a latitude.
#[derive(Clone, Copy, Debug, PartialEq, Eq)]
pub enum HemisphereLatitudeType {
    East,
    West,
}

/// The wire index under which the schema declares each alternative.
pub open spec fn spec_hemisphere_latitude_type_index(v: HemisphereLatitudeType) -> int {
    match v {
        HemisphereLatitudeType::East => 0,
        HemisphereLatitudeType::West => 1,
    }
}

impl HemisphereLatitudeType {
    pub fn try_from_uper<'a>(rest: &'a [bool]) -> (r: ParseResult<'a, Self>)
        ensures
            ({
                let o = spec_decode_enum_index(rest@, false, 1);
                match r {
                    Ok((remaining, v)) => (match o {
                        IndexOutcome::Taken { consumed, index } => remaining@
                            == rest@.skip(consumed) && is_suffix_of(remaining@, rest@)
                            && remaining@.len() < rest@.len() && index == spec_hemisphere_latitude_type_index(v),
                        _ => false,
                    }),
                    Err(DecodeFailure::Incomplete { needed }) => (match o {
                        IndexOutcome::Incomplete { needed: n } => needed == n,
                        _ => false,
                    }),
                    Err(DecodeFailure::Error(e)) => (match o {
                        IndexOutcome::Extended => e.bits_remaining == rest@.len() - 1
                            && e.kind matches ErrorKind::UnsupportedExtension {  },
                        IndexOutcome::Taken { consumed, index } => index > 1
                            && e.bits_remaining == rest@.len() - consumed && (e.kind
                            matches ErrorKind::InvalidEnumerated { value } && value@
                            == index),
                        _ => false,
                    }),
                }
            }),
    {
        let (rest3, value_index) = decode_enumerated_index(rest, 1)?;
        proof {
            assert(rest@.skip(0) =~= rest@);
        }
        let enum_value = match value_index {
            0 => Self::East,
            1 => Self::West,
            _ => {
                return Err(
                    DecodeFailure::Error(
                        DecodingError::new(
                            rest3.len(),
                            ErrorKind::InvalidEnumerated {
                                value: Integer::from_usize(value_index),
                            },
                        ),
                    ),
                );
            },
        };
        Ok((rest3, enum_value))
    }
}

/// The deck a vehicle is loaded on.
#[derive(Clone, Copy, Debug, PartialEq, Eq)]
pub enum LoadingDeckType {
    Unspecified,
    Upper,
    Lower,
}

/// The wire index under which the schema declares each alternative.
pub open spec fn spec_loading_deck_type_index(v: LoadingDeckType) -> int {
    match v {
        LoadingDeckType::Unspecified => 0,
        LoadingDeckType::Upper => 1,
        LoadingDeckType::Lower => 2,
    }
}

impl LoadingDeckType {
    pub fn try_from_uper<'a>(rest: &'a [bool]) -> (r: ParseResult<'a, Self>)
        ensures
            ({
                let o = spec_decode_enum_index(rest@, false, 2);
                match r {
                    Ok((remaining, v)) => (match o {
                        IndexOutcome::Taken { consumed, index } => remaining@
                            == rest@.skip(consumed) && is_suffix_of(remaining@, rest@)
                            && remaining@.len() < rest@.len() && index == spec_loading_deck_type_index(v),
                        _ => false,
                    }),
                    Err(DecodeFailure::Incomplete { needed }) => (match o {
                        IndexOutcome::Incomplete { needed: n } => needed == n,
                        _ => false,
                    }),
                    Err(DecodeFailure::Error(e)) => (match o {
                        IndexOutcome::Extended => e.bits_remaining == rest@.len() - 1
                            && e.kind matches ErrorKind::UnsupportedExtension {  },
                        IndexOutcome::Taken { consumed, index } => index > 2
                            && e.bits_remaining == rest@.len() - consumed && (e.kind
                            matches ErrorKind::InvalidEnumerated { value } && value@
                            == index),
                        _ => false,
                    }),
                }
            }),
    {
        let (rest3, value_index) = decode_enumerated_index(rest, 2)?;
        proof {
            assert(rest@.skip(0) =~= rest@);
        }
        let enum_value = match value_index {
            0 => Self::Unspecified,
            1 => Self::Upper,
            2 => Self::Lower,
            _ => {
                return Err(
                    DecodeFailure::Error(
                        DecodingError::new(
                            rest3.len(),
                            ErrorKind::InvalidEnumerated {
                                value: Integer::from_usize(value_index),
                            },
                        ),
                    ),
                );
            },
        };
        Ok((rest3, enum_value))
    }
}

/// The level of a compartment.
#[derive(Clone, Copy, Debug, PartialEq, Eq)]
pub enum CompartmentPositionType {
    Unspecified,
    UpperLevel,
    LowerLevel,
}

/// The wire index under which the schema declares each alternative.
pub open spec fn spec_compartment_position_type_index(v: CompartmentPositionType) -> int {
    match v {
        CompartmentPositionType::Unspecified => 0,
        CompartmentPositionType::UpperLevel => 1,
        CompartmentPositionType::LowerLevel => 2,
    }
}

impl CompartmentPositionType {
    pub fn try_from_uper<'a>(rest: &'a [bool]) -> (r: ParseResult<'a, Self>)
        ensures
            ({
                let o = spec_decode_enum_index(rest@, false, 2);
                match r {
                    Ok((remaining, v)) => (match o {
                        IndexOutcome::Taken { consumed, index } => remaining@
                            == rest@.skip(consumed) && is_suffix_of(remaining@, rest@)
                            && remaining@.len() < rest@.len() && index == spec_compartment_position_type_index(v),
                        _ => false,
                    }),
                    Err(DecodeFailure::Incomplete { needed }) => (match o {
                        IndexOutcome::Incomplete { needed: n } => needed == n,
                        _ => false,
                    }),
                    Err(DecodeFailure::Error(e)) => (match o {
                        IndexOutcome::Extended => e.bits_remaining == rest@.len() - 1
                            && e.kind matches ErrorKind::UnsupportedExtension {  },
                        IndexOutcome::Taken { consumed, index } => index > 2
                            && e.bits_remaining == rest@.len() - consumed && (e.kind
                            matches ErrorKind::InvalidEnumerated { value } && value@
                            == index),
                        _ => false,
                    }),
                }
            }),
    {
        let (rest3, value_index) = decode_enumerated_index(rest, 2)?;
        proof {
            assert(rest@.skip(0) =~= rest@);
        }
        let enum_value = match value_index {
            0 => Self::Unspecified,
            1 => Self::UpperLevel,
            2 => Self::LowerLevel,
            _ => {
                return Err(
                    DecodeFailure::Error(
                        DecodingError::new(
                            rest3.len(),
                            ErrorKind::InvalidEnumerated {
                                value: Integer::from_usize(value_index),
                            },
                        ),
                    ),
                );
            },
        };
        Ok((rest3, enum_value))
    }
}

/// The roof rack of a carried car.
#[derive(Clone, Copy, Debug, PartialEq, Eq)]
pub enum RoofRackType {
    Norack,
    RoofRailing,
    LuggageRack,
    SkiRack,
    BoxRack,
    RackWithOneBox,
    RackWithTwoBoxes,
    BicycleRack,
    OtherRack,
}

/// The wire index under which the schema declares each alternative.
pub open spec fn spec_roof_rack_type_index(v: RoofRackType) -> int {
    match v {
        RoofRackType::Norack => 0,
        RoofRackType::RoofRailing => 1,
        RoofRackType::LuggageRack => 2,
        RoofRackType::SkiRack => 3,
        RoofRackType::BoxRack => 4,
        RoofRackType::RackWithOneBox => 5,
        RoofRackType::RackWithTwoBoxes => 6,
        RoofRackType::BicycleRack => 7,
        RoofRackType::OtherRack => 8,
    }
}

impl RoofRackType {
    pub fn try_from_uper<'a>(rest: &'a [bool]) -> (r: ParseResult<'a, Self>)
        ensures
            ({
                let o = spec_decode_enum_index(rest@, true, 8);
                match r {
                    Ok((remaining, v)) => (match o {
                        IndexOutcome::Taken { consumed, index } => remaining@
                            == rest@.skip(consumed) && is_suffix_of(remaining@, rest@)
                            && remaining@.len() < rest@.len() && index == spec_roof_rack_type_index(v),
                        _ => false,
                    }),
                    Err(DecodeFailure::Incomplete { needed }) => (match o {
                        IndexOutcome::Incomplete { needed: n } => needed == n,
                        _ => false,
                    }),
                    Err(DecodeFailure::Error(e)) => (match o {
                        IndexOutcome::Extended => e.bits_remaining == rest@.len() - 1
                            && e.kind matches ErrorKind::UnsupportedExtension {  },
                        IndexOutcome::Taken { consumed, index } => index > 8
                            && e.bits_remaining == rest@.len() - consumed && (e.kind
                            matches ErrorKind::InvalidEnumerated { value } && value@
                            == index),
                        _ => false,
                    }),
                }
            }),
    {
        let (rest2, _) = decode_extension_marker(rest)?;
        let (rest3, value_index) = decode_enumerated_index(rest2, 8)?;
        proof {
            let w = asn1_uper::shift_count(8) as int;
            assert(rest@.skip(1).skip(w) =~= rest@.skip(1 + w));
        }
        let enum_value = match value_index {
            0 => Self::Norack,
            1 => Self::RoofRailing,
            2 => Self::LuggageRack,
            3 => Self::SkiRack,
            4 => Self::BoxRack,
            5 => Self::RackWithOneBox,
            6 => Self::RackWithTwoBoxes,
            7 => Self::BicycleRack,
            8 => Self::OtherRack,
            _ => {
                return Err(
                    DecodeFailure::Error(
                        DecodingError::new(
                            rest3.len(),
                            ErrorKind::InvalidEnumerated {
                                value: Integer::from_usize(value_index),
                            },
                        ),
                    ),
                );
            },
        };
        Ok((rest3, enum_value))
    }
}

/// Whether a restriction concerns boarding or arrival.
#[derive(Clone, Copy, Debug, PartialEq, Eq)]
pub enum BoardingOrArrivalRestrictionType {
    Boarding,
    Arrival,
}

/// The wire index under which the schema declares each alternative.
pub open spec fn spec_boarding_or_arrival_restriction_type_index(v: BoardingOrArrivalRestrictionType) -> int {
    match v {
        BoardingOrArrivalRestrictionType::Boarding => 0,
        BoardingOrArrivalRestrictionType::Arrival => 1,
    }
}

impl BoardingOrArrivalRestrictionType {
    pub fn try_from_uper<'a>(rest: &'a [bool]) -> (r: ParseResult<'a, Self>)
        ensures
            ({
                let o = spec_decode_enum_index(rest@, true, 1);
                match r {
                    Ok((remaining, v)) => (match o {
                        IndexOutcome::Taken { consumed, index } => remaining@
                            == rest@.skip(consumed) && is_suffix_of(remaining@, rest@)
                            && remaining@.len() < rest@.len() && index == spec_boarding_or_arrival_restriction_type_index(v),
                        _ => false,
                    }),
                    Err(DecodeFailure::Incomplete { needed }) => (match o {
                        IndexOutcome::Incomplete { needed: n } => needed == n,
                        _ => false,
                    }),
                    Err(DecodeFailure::Error(e)) => (match o {
                        IndexOutcome::Extended => e.bits_remaining == rest@.len() - 1
                            && e.kind matches ErrorKind::UnsupportedExtension {  },
                        IndexOutcome::Taken { consumed, index } => index > 1
                            && e.bits_remaining == rest@.len() - consumed && (e.kind
                            matches ErrorKind::InvalidEnumerated { value } && value@
                            == index),
                        _ => false,
                    }),
                }
            }),
    {
        let (rest2, _) = decode_extension_marker(rest)?;
        let (rest3, value_index) = decode_enumerated_index(rest2, 1)?;
        proof {
            let w = asn1_uper::shift_count(1) as int;
            assert(rest@.skip(1).skip(w) =~= rest@.skip(1 + w));
        }
        let enum_value = match value_index {
            0 => Self::Boarding,
            1 => Self::Arrival,
            _ => {
                return Err(
                    DecodeFailure::Error(
                        DecodingError::new(
                            rest3.len(),
                            ErrorKind::InvalidEnumerated {
                                value: Integer::from_usize(value_index),
                            },
                        ),
                    ),
                );
            },
        };
        Ok((rest3, enum_value))
    }
}

/// The berths of one sleeper reservation.
#[derive(Clone, Debug, PartialEq, Eq)]
pub struct BerthDetailData {
    pub berth_type: BerthTypeType,
    pub number_of_berths: Integer,
    pub gender: CompartmentGenderType,
}

impl BerthDetailData {
    pub fn try_from_uper<'a>(rest: &'a [bool]) -> (r: ParseResult<'a, Self>)
        ensures
            r matches Ok((remaining, _)) ==> is_suffix_of(remaining@, rest@) && remaining@.len()
                < rest@.len(),
            ({
                let b = rest@;
                match r {
                    Ok((remaining, v)) => b.len() >= 1 && !b[0] && b.skip(1).len() >= 1 && ({
                        let b1 = b.skip(1);
                        let b2 = b1.skip(1);
                        match spec_decode_enum_index(b2, false, 5) {
                            IndexOutcome::Taken { consumed: c1, index: i1 } => i1
                                == spec_berth_type_type_index(v.berth_type) && (
                            match asn1_uper::spec_decode_constrained_int(b2.skip(c1), 1, 999) {
                                asn1_uper::NumberOutcome::Taken { consumed: c2, value: n } => ({
                                    let b4 = b2.skip(c1).skip(c2);
                        let fg = if b1[0] {
                            match spec_decode_enum_index(b4, true, 4) {
                                IndexOutcome::Taken { consumed, index } => (
                                b4.skip(consumed), index, true),
                                _ => (b4, 0int, false),
                            }
                        } else {
                            (b4, spec_compartment_gender_type_index(CompartmentGenderType::Family), true)
                        };
                                    &&& v.number_of_berths@ == n
                                    &&& fg.2
                                    &&& spec_compartment_gender_type_index(v.gender) == fg.1
                                    &&& remaining@ == fg.0
                                }),
                                _ => false,
                            }),
                            _ => false,
                        }
                    }),
                    Err(_) => true,
                }
            }),
    {
        let (rest, _) = decode_extension_marker(rest)?;
        let (rest, optional_bits) = asn1_uper::decode_bools(rest, 1)?;
        let (rest, berth_type) = BerthTypeType::try_from_uper(rest)?;
        let (rest, number_of_berths) = decode_constrained_integer_field(rest, 1, 999)?;
        let (rest, gender) = if optional_bits[0] {
            CompartmentGenderType::try_from_uper(rest)?
        } else {
            (rest, CompartmentGenderType::Family)
        };
        let sequence = Self { berth_type, number_of_berths, gender };
        Ok((rest, sequence))
    }
}

/// The coach and compartment a reservation points into.
#[derive(Clone, Debug, PartialEq, Eq)]
pub struct CompartmentDetailsType {
    pub coach_type: Option<Integer>,
    pub compartment_type: Option<Integer>,
    pub special_allocation: Option<Integer>,
    pub coach_type_descr: Option<String>,
    pub compartment_type_descr: Option<String>,
    pub special_allocation_descr: Option<String>,
    pub position: CompartmentPositionType,
}

impl CompartmentDetailsType {
    #[verifier::rlimit(40)]
    pub fn try_from_uper<'a>(rest: &'a [bool]) -> (r: ParseResult<'a, Self>)
        ensures
            r matches Ok((remaining, _)) ==> is_suffix_of(remaining@, rest@) && remaining@.len()
                < rest@.len(),
            ({
                let b = rest@;
                match r {
                    Ok((remaining, v)) => b.len() >= 1 && !b[0] && b.skip(1).len() >= 7 && ({
                        let b1 = b.skip(1);
                        let b2 = b1.skip(7);
                        let f1 = if b1[0] {
                            match asn1_uper::spec_decode_constrained_int(b2, 1, 99) {
                                asn1_uper::NumberOutcome::Taken { consumed, value } => (
                                b2.skip(consumed), value, true),
                                _ => (b2, 0int, false),
                            }
                        } else {
                            (b2, 0int, true)
                        };
                        let f2 = if b1[1] {
                            match asn1_uper::spec_decode_constrained_int(f1.0, 1, 99) {
                                asn1_uper::NumberOutcome::Taken { consumed, value } => (
                                f1.0.skip(consumed), value, true),
                                _ => (f1.0, 0int, false),
                            }
                        } else {
                            (f1.0, 0int, true)
                        };
                        let f3 = if b1[2] {
                            match asn1_uper::spec_decode_constrained_int(f2.0, 1, 99) {
                                asn1_uper::NumberOutcome::Taken { consumed, value } => (
                                f2.0.skip(consumed), value, true),
                                _ => (f2.0, 0int, false),
                            }
                        } else {
                            (f2.0, 0int, true)
                        };
                        let f4 = if b1[3] {
                            match asn1_uper::spec_decode_string(
                                f3.0,
                                WholeNumberConstraint::Unconstrained,
                                8,
                            ) {
                                asn1_uper::BytesOutcome::Taken { consumed, bytes } => if vstd::utf8::valid_utf8(
                                    bytes,
                                ) {
                                    (f3.0.skip(consumed), vstd::utf8::decode_utf8(bytes), true)
                                } else {
                                    (f3.0, Seq::<char>::empty(), false)
                                },
                                _ => (f3.0, Seq::<char>::empty(), false),
                            }
                        } else {
                            (f3.0, Seq::<char>::empty(), true)
                        };
                        let f5 = if b1[4] {
                            match asn1_uper::spec_decode_string(
                                f4.0,
                                WholeNumberConstraint::Unconstrained,
                                8,
                            ) {
                                asn1_uper::BytesOutcome::Taken { consumed, bytes } => if vstd::utf8::valid_utf8(
                                    bytes,
                                ) {
                                    (f4.0.skip(consumed), vstd::utf8::decode_utf8(bytes), true)
                                } else {
                                    (f4.0, Seq::<char>::empty(), false)
                                },
                                _ => (f4.0, Seq::<char>::empty(), false),
                            }
                        } else {
                            (f4.0, Seq::<char>::empty(), true)
                        };
                        let f6 = if b1[5] {
                            match asn1_uper::spec_decode_string(
                                f5.0,
                                WholeNumberConstraint::Unconstrained,
                                8,
                            ) {
                                asn1_uper::BytesOutcome::Taken { consumed, bytes } => if vstd::utf8::valid_utf8(
                                    bytes,
                                ) {
                                    (f5.0.skip(consumed), vstd::utf8::decode_utf8(bytes), true)
                                } else {
                                    (f5.0, Seq::<char>::empty(), false)
                                },
                                _ => (f5.0, Seq::<char>::empty(), false),
                            }
                        } else {
                            (f5.0, Seq::<char>::empty(), true)
                        };
                        let f7 = if b1[6] {
                            match spec_decode_enum_index(f6.0, false, 2) {
                                IndexOutcome::Taken { consumed, index } => (
                                f6.0.skip(consumed), index, true),
                                _ => (f6.0, 0int, false),
                            }
                        } else {
                            (f6.0, spec_compartment_position_type_index(CompartmentPositionType::Unspecified), true)
                        };
                        &&& f1.2
                        &&& f2.2
                        &&& f3.2
                        &&& f4.2
                        &&& f5.2
                        &&& f6.2
                        &&& f7.2
                        &&& (v.coach_type is Some) == b1[0]
                        &&& (b1[0] ==> (v.coach_type matches Some(x) && x@ == f1.1))
                        &&& (v.compartment_type is Some) == b1[1]
                        &&& (b1[1] ==> (v.compartment_type matches Some(x) && x@ == f2.1))
                        &&& (v.special_allocation is Some) == b1[2]
                        &&& (b1[2] ==> (v.special_allocation matches Some(x) && x@ == f3.1))
                        &&& (v.coach_type_descr is Some) == b1[3]
                        &&& (b1[3] ==> (v.coach_type_descr matches Some(x) && x@ == f4.1))
                        &&& (v.compartment_type_descr is Some) == b1[4]
                        &&& (b1[4] ==> (v.compartment_type_descr matches Some(x) && x@ == f5.1))
                        &&& (v.special_allocation_descr is Some) == b1[5]
                        &&& (b1[5] ==> (v.special_allocation_descr matches Some(x) && x@
                            == f6.1))
                        &&& spec_compartment_position_type_index(v.position) == f7.1
                        &&& remaining@ == f7.0
                    }),
                    Err(_) => true,
                }
            }),
    {
        let (rest, _) = decode_extension_marker(rest)?;
        let (rest, optional_bits) = asn1_uper::decode_bools(rest, 7)?;
        let (rest, coach_type) = if optional_bits[0] {
            let (rest, value) = decode_constrained_integer_field(rest, 1, 99)?;
            (rest, Some(value))
        } else {
            (rest, None)
        };
        let (rest, compartment_type) = if optional_bits[1] {
            let (rest, value) = decode_constrained_integer_field(rest, 1, 99)?;
            (rest, Some(value))
        } else {
            (rest, None)
        };
        let (rest, special_allocation) = if optional_bits[2] {
            let (rest, value) = decode_constrained_integer_field(rest, 1, 99)?;
            (rest, Some(value))
        } else {
            (rest, None)
        };
        let (rest, coach_type_descr) = if optional_bits[3] {
            let (rest, value) = decode_utf8_octet_string_field(rest)?;
            (rest, Some(value))
        } else {
            (rest, None)
        };
        let (rest, compartment_type_descr) = if optional_bits[4] {
            let (rest, value) = decode_utf8_octet_string_field(rest)?;
            (rest, Some(value))
        } else {
            (rest, None)
        };
        let (rest, special_allocation_descr) = if optional_bits[5] {
            let (rest, value) = decode_utf8_octet_string_field(rest)?;
            (rest, Some(value))
        } else {
            (rest, None)
        };
        let (rest, position) = if optional_bits[6] {
            CompartmentPositionType::try_from_uper(rest)?
        } else {
            (rest, CompartmentPositionType::Unspecified)
        };
        let sequence = Self {
            coach_type,
            compartment_type,
            special_allocation,
            coach_type_descr,
            compartment_type_descr,
            special_allocation_descr,
            position,
        };
        Ok((rest, sequence))
    }
}

/// One piece of registered luggage.
#[derive(Clone, Debug, PartialEq, Eq)]
pub struct RegisteredLuggageType {
    pub registration_id: Option<String>,
    pub max_weight: Option<Integer>,
    pub max_size: Option<Integer>,
}

impl RegisteredLuggageType {
    #[verifier::rlimit(40)]
    pub fn try_from_uper<'a>(rest: &'a [bool]) -> (r: ParseResult<'a, Self>)
        ensures
            r matches Ok((remaining, _)) ==> is_suffix_of(remaining@, rest@) && remaining@.len()
                < rest@.len(),
            ({
                let b = rest@;
                match r {
                    Ok((remaining, v)) => b.len() >= 1 && !b[0] && b.skip(1).len() >= 3 && ({
                        let b1 = b.skip(1);
                        let b2 = b1.skip(3);
                        let f1 = if b1[0] {
                            match asn1_uper::spec_decode_string(
                                b2,
                                WholeNumberConstraint::Unconstrained,
                                7,
                            ) {
                                asn1_uper::BytesOutcome::Taken { consumed, bytes } => if vstd::utf8::valid_utf8(
                                    bytes,
                                ) {
                                    (b2.skip(consumed), vstd::utf8::decode_utf8(bytes), true)
                                } else {
                                    (b2, Seq::<char>::empty(), false)
                                },
                                _ => (b2, Seq::<char>::empty(), false),
                            }
                        } else {
                            (b2, Seq::<char>::empty(), true)
                        };
                        let f2 = if b1[1] {
                            match asn1_uper::spec_decode_constrained_int(f1.0, 1, 99) {
                                asn1_uper::NumberOutcome::Taken { consumed, value } => (
                                f1.0.skip(consumed), value, true),
                                _ => (f1.0, 0int, false),
                            }
                        } else {
                            (f1.0, 0int, true)
                        };
                        let f3 = if b1[2] {
                            match asn1_uper::spec_decode_constrained_int(f2.0, 1, 300) {
                                asn1_uper::NumberOutcome::Taken { consumed, value } => (
                                f2.0.skip(consumed), value, true),
                                _ => (f2.0, 0int, false),
                            }
                        } else {
                            (f2.0, 0int, true)
                        };
                        &&& f1.2
                        &&& f2.2
                        &&& f3.2
                        &&& (v.registration_id is Some) == b1[0]
                        &&& (b1[0] ==> (v.registration_id matches Some(x) && x@ == f1.1))
                        &&& (v.max_weight is Some) == b1[1]
                        &&& (b1[1] ==> (v.max_weight matches Some(x) && x@ == f2.1))
                        &&& (v.max_size is Some) == b1[2]
                        &&& (b1[2] ==> (v.max_size matches Some(x) && x@ == f3.1))
                        &&& remaining@ == f3.0
                    }),
                    Err(_) => true,
                }
            }),
    {
        let (rest, _) = decode_extension_marker(rest)?;
        let (rest, optional_bits) = asn1_uper::decode_bools(rest, 3)?;
        let (rest, registration_id) = if optional_bits[0] {
            let (rest, value) = decode_ia5_string_field(rest)?;
            (rest, Some(value))
        } else {
            (rest, None)
        };
        let (rest, max_weight) = if optional_bits[1] {
            let (rest, value) = decode_constrained_integer_field(rest, 1, 99)?;
            (rest, Some(value))
        } else {
            (rest, None)
        };
        let (rest, max_size) = if optional_bits[2] {
            let (rest, value) = decode_constrained_integer_field(rest, 1, 300)?;
            (rest, Some(value))
        } else {
            (rest, None)
        };
        let sequence = Self { registration_id, max_weight, max_size };
        Ok((rest, sequence))
    }
}

/// What luggage a ticket admits.
#[derive(Clone, Debug, PartialEq, Eq)]
pub struct LuggageRestrictionType {
    pub max_hand_luggage_pieces: Integer,
    pub max_non_hand_luggage_pieces: Integer,
    pub registered_luggage: Vec<RegisteredLuggageType>,
}

impl LuggageRestrictionType {
    #[verifier::rlimit(40)]
    pub fn try_from_uper<'a>(rest: &'a [bool]) -> (r: ParseResult<'a, Self>)
        ensures
            r matches Ok((remaining, _)) ==> is_suffix_of(remaining@, rest@) && remaining@.len()
                < rest@.len(),
            ({
                let b = rest@;
                match r {
                    Ok((remaining, v)) => b.len() >= 1 && !b[0] && b.skip(1).len() >= 3 && ({
                        let b1 = b.skip(1);
                        let b2 = b1.skip(3);
                        let f1 = if b1[0] {
                            match asn1_uper::spec_decode_constrained_int(b2, 0, 99) {
                                asn1_uper::NumberOutcome::Taken { consumed, value } => (
                                b2.skip(consumed), value, true),
                                _ => (b2, 0int, false),
                            }
                        } else {
                            (b2, 3int, true)
                        };
                        let f2 = if b1[1] {
                            match asn1_uper::spec_decode_constrained_int(f1.0, 0, 99) {
                                asn1_uper::NumberOutcome::Taken { consumed, value } => (
                                f1.0.skip(consumed), value, true),
                                _ => (f1.0, 0int, false),
                            }
                        } else {
                            (f1.0, 1int, true)
                        };
                        let f3 = if b1[2] {
                            match asn1_uper::spec_decode_length_general(f2.0) {
                                asn1_uper::NumberOutcome::Taken { consumed, value } => (
                                f2.0.skip(consumed), value, true),
                                _ => (f2.0, 0int, false),
                            }
                        } else {
                            (f2.0, 0int, true)
                        };
                        &&& f1.2
                        &&& f2.2
                        &&& f3.2
                        &&& v.max_hand_luggage_pieces@ == f1.1
                        &&& v.max_non_hand_luggage_pieces@ == f2.1
                        &&& (b1[2] ==> v.registered_luggage@.len() == f3.1)
                        &&& (!b1[2] ==> v.registered_luggage@.len() == 0 && remaining@ == f3.0)
                    }),
                    Err(_) => true,
                }
            }),
    {
        let ghost input = rest@;
        let (rest, _) = decode_extension_marker(rest)?;
        let (rest, optional_bits) = asn1_uper::decode_bools(rest, 3)?;
        let (rest, max_hand_luggage_pieces) = if optional_bits[0] {
            decode_constrained_integer_field(rest, 0, 99)?
        } else {
            (rest, Integer::from_short(3))
        };
        let (rest, max_non_hand_luggage_pieces) = if optional_bits[1] {
            decode_constrained_integer_field(rest, 0, 99)?
        } else {
            (rest, Integer::from_short(1))
        };
        let (rest, registered_luggage) = if optional_bits[2] {
            let (mut loop_rest, member_count) = decode_sequence_of_length(rest)?;
            let mut buf: Vec<RegisteredLuggageType> = Vec::new();
            let mut i: usize = 0;
            while i < member_count
                invariant
                    is_suffix_of(loop_rest@, input),
                    loop_rest@.len() < input.len(),
                    0 <= i <= member_count,
                    buf@.len() == i,
                decreases member_count - i,
            {
                let (new_rest, member) = RegisteredLuggageType::try_from_uper(loop_rest)?;
                buf.push(member);
                loop_rest = new_rest;
                i += 1;
            }
            (loop_rest, buf)
        } else {
            (rest, Vec::new())
        };
        let sequence = Self {
            max_hand_luggage_pieces,
            max_non_hand_luggage_pieces,
            registered_luggage,
        };
        Ok((rest, sequence))
    }
}

/// A position on the globe.
#[derive(Clone, Debug, PartialEq, Eq)]
pub struct GeoCoordinateType {
    pub geo_unit: GeoUnitType,
    pub coordinate_system: GeoCoordinateSystemType,
    pub hemisphere_longitude: HemisphereLongitudeType,
    pub hemisphere_latitude: HemisphereLatitudeType,
    pub longitude: Integer,
    pub latitude: Integer,
    pub accuracy: Option<GeoUnitType>,
}

impl GeoCoordinateType {
    #[verifier::rlimit(40)]
    pub fn try_from_uper<'a>(rest: &'a [bool]) -> (r: ParseResult<'a, Self>)
        ensures
            r matches Ok((remaining, _)) ==> is_suffix_of(remaining@, rest@) && remaining@.len()
                < rest@.len(),
            ({
                let b = rest@;
                match r {
                    Ok((remaining, v)) => b.len() >= 5 && ({
                        let b1 = b.skip(5);
                        let f1 = if b[0] {
                            match spec_decode_enum_index(b1, false, 4) {
                                IndexOutcome::Taken { consumed, index } => (
                                b1.skip(consumed), index, true),
                                _ => (b1, 0int, false),
                            }
                        } else {
                            (b1, spec_geo_unit_type_index(GeoUnitType::MilliDegree), true)
                        };
                        let f2 = if b[1] {
                            match spec_decode_enum_index(f1.0, false, 1) {
                                IndexOutcome::Taken { consumed, index } => (
                                f1.0.skip(consumed), index, true),
                                _ => (f1.0, 0int, false),
                            }
                        } else {
                            (f1.0, spec_geo_coordinate_system_type_index(GeoCoordinateSystemType::Wgs84), true)
                        };
                        let f3 = if b[2] {
                            match spec_decode_enum_index(f2.0, false, 1) {
                                IndexOutcome::Taken { consumed, index } => (
                                f2.0.skip(consumed), index, true),
                                _ => (f2.0, 0int, false),
                            }
                        } else {
                            (f2.0, spec_hemisphere_longitude_type_index(HemisphereLongitudeType::North), true)
                        };
                        let f4 = if b[3] {
                            match spec_decode_enum_index(f3.0, false, 1) {
                                IndexOutcome::Taken { consumed, index } => (
                                f3.0.skip(consumed), index, true),
                                _ => (f3.0, 0int, false),
                            }
                        } else {
                            (f3.0, spec_hemisphere_latitude_type_index(HemisphereLatitudeType::East), true)
                        };
                        let f5 = match asn1_uper::spec_decode_octet_int(f4.0, None) {
                            asn1_uper::NumberOutcome::Taken { consumed, value } => (
                            f4.0.skip(consumed), value, true),
                            _ => (f4.0, 0int, false),
                        };
                        let f6 = match asn1_uper::spec_decode_octet_int(f5.0, None) {
                            asn1_uper::NumberOutcome::Taken { consumed, value } => (
                            f5.0.skip(consumed), value, true),
                            _ => (f5.0, 0int, false),
                        };
                        let f7 = if b[4] {
                            match spec_decode_enum_index(f6.0, false, 4) {
                                IndexOutcome::Taken { consumed, index } => (
                                f6.0.skip(consumed), index, true),
                                _ => (f6.0, 0int, false),
                            }
                        } else {
                            (f6.0, 0int, true)
                        };
                        &&& f1.2
                        &&& f2.2
                        &&& f3.2
                        &&& f4.2
                        &&& f5.2
                        &&& f6.2
                        &&& f7.2
                        &&& spec_geo_unit_type_index(v.geo_unit) == f1.1
                        &&& spec_geo_coordinate_system_type_index(v.coordinate_system) == f2.1
                        &&& spec_hemisphere_longitude_type_index(v.hemisphere_longitude) == f3.1
                        &&& spec_hemisphere_latitude_type_index(v.hemisphere_latitude) == f4.1
                        &&& v.longitude@ == f5.1
                        &&& v.latitude@ == f6.1
                        &&& (v.accuracy is Some) == b[4]
                        &&& (b[4] ==> (v.accuracy matches Some(a) && spec_geo_unit_type_index(a)
                            == f7.1))
                        &&& remaining@ == f7.0
                    }),
                    Err(_) => true,
                }
            }),
    {
        let (rest, optional_bits) = asn1_uper::decode_bools(rest, 5)?;
        let (rest, geo_unit) = if optional_bits[0] {
            GeoUnitType::try_from_uper(rest)?
        } else {
            (rest, GeoUnitType::MilliDegree)
        };
        let (rest, coordinate_system) = if optional_bits[1] {
            GeoCoordinateSystemType::try_from_uper(rest)?
        } else {
            (rest, GeoCoordinateSystemType::Wgs84)
        };
        let (rest, hemisphere_longitude) = if optional_bits[2] {
            HemisphereLongitudeType::try_from_uper(rest)?
        } else {
            (rest, HemisphereLongitudeType::North)
        };
        let (rest, hemisphere_latitude) = if optional_bits[3] {
            HemisphereLatitudeType::try_from_uper(rest)?
        } else {
            (rest, HemisphereLatitudeType::East)
        };
        let (rest, longitude) = decode_unconstrained_integer_field(rest)?;
        let (rest, latitude) = decode_unconstrained_integer_field(rest)?;
        let (rest, accuracy) = if optional_bits[4] {
            let (rest, value) = GeoUnitType::try_from_uper(rest)?;
            (rest, Some(value))
        } else {
            (rest, None)
        };
        let sequence = Self {
            geo_unit,
            coordinate_system,
            hemisphere_longitude,
            hemisphere_latitude,
            longitude,
            latitude,
            accuracy,
        };
        Ok((rest, sequence))
    }
}

/// A polygonal region: a first edge and deltas from it.
#[derive(Clone, Debug, PartialEq, Eq)]
pub struct PolygoneType {
    pub first_edge: GeoCoordinateType,
    pub edges: Vec<DeltaCoordinates>,
}

impl PolygoneType {
    pub fn try_from_uper<'a>(rest: &'a [bool]) -> (r: ParseResult<'a, Self>)
        ensures
            r matches Ok((remaining, _)) ==> is_suffix_of(remaining@, rest@) && remaining@.len()
                < rest@.len(),
            ({
                let b = rest@;
                match r {
                    Ok((remaining, v)) => b.len() >= 5 && ({
                        let b1 = b.skip(5);
                        let f1 = if b[0] {
                            match spec_decode_enum_index(b1, false, 4) {
                                IndexOutcome::Taken { consumed, index } => (
                                b1.skip(consumed), index, true),
                                _ => (b1, 0int, false),
                            }
                        } else {
                            (b1, spec_geo_unit_type_index(GeoUnitType::MilliDegree), true)
                        };
                        let f2 = if b[1] {
                            match spec_decode_enum_index(f1.0, false, 1) {
                                IndexOutcome::Taken { consumed, index } => (
                                f1.0.skip(consumed), index, true),
                                _ => (f1.0, 0int, false),
                            }
                        } else {
                            (f1.0, spec_geo_coordinate_system_type_index(GeoCoordinateSystemType::Wgs84), true)
                        };
                        let f3 = if b[2] {
                            match spec_decode_enum_index(f2.0, false, 1) {
                                IndexOutcome::Taken { consumed, index } => (
                                f2.0.skip(consumed), index, true),
                                _ => (f2.0, 0int, false),
                            }
                        } else {
                            (f2.0, spec_hemisphere_longitude_type_index(HemisphereLongitudeType::North), true)
                        };
                        let f4 = if b[3] {
                            match spec_decode_enum_index(f3.0, false, 1) {
                                IndexOutcome::Taken { consumed, index } => (
                                f3.0.skip(consumed), index, true),
                                _ => (f3.0, 0int, false),
                            }
                        } else {
                            (f3.0, spec_hemisphere_latitude_type_index(HemisphereLatitudeType::East), true)
                        };
                        let f5 = match asn1_uper::spec_decode_octet_int(f4.0, None) {
                            asn1_uper::NumberOutcome::Taken { consumed, value } => (
                            f4.0.skip(consumed), value, true),
                            _ => (f4.0, 0int, false),
                        };
                        let f6 = match asn1_uper::spec_decode_octet_int(f5.0, None) {
                            asn1_uper::NumberOutcome::Taken { consumed, value } => (
                            f5.0.skip(consumed), value, true),
                            _ => (f5.0, 0int, false),
                        };
                        let f7 = if b[4] {
                            match spec_decode_enum_index(f6.0, false, 4) {
                                IndexOutcome::Taken { consumed, index } => (
                                f6.0.skip(consumed), index, true),
                                _ => (f6.0, 0int, false),
                            }
                        } else {
                            (f6.0, 0int, true)
                        };
                        let f8 = match asn1_uper::spec_decode_length_general(f7.0) {
                            asn1_uper::NumberOutcome::Taken { consumed, value } => (
                            f7.0.skip(consumed), value, true),
                            _ => (f7.0, 0int, false),
                        };
                        &&& f1.2
                        &&& f2.2
                        &&& f3.2
                        &&& f4.2
                        &&& f5.2
                        &&& f6.2
                        &&& f7.2
                        &&& f8.2
                        &&& spec_geo_unit_type_index(v.first_edge.geo_unit) == f1.1
                        &&& spec_geo_coordinate_system_type_index(v.first_edge.coordinate_system)
                            == f2.1
                        &&& spec_hemisphere_longitude_type_index(
                            v.first_edge.hemisphere_longitude,
                        ) == f3.1
                        &&& spec_hemisphere_latitude_type_index(v.first_edge.hemisphere_latitude)
                            == f4.1
                        &&& v.first_edge.longitude@ == f5.1
                        &&& v.first_edge.latitude@ == f6.1
                        &&& (v.first_edge.accuracy is Some) == b[4]
                        &&& (b[4] ==> (v.first_edge.accuracy matches Some(a)
                            && spec_geo_unit_type_index(a) == f7.1))
                        &&& v.edges@.len() == f8.1
                    }),
                    Err(_) => true,
                }
            }),
    {
        let ghost input = rest@;
        let (rest, first_edge) = GeoCoordinateType::try_from_uper(rest)?;
        let (mut loop_rest, member_count) = decode_sequence_of_length(rest)?;
        let mut buf: Vec<DeltaCoordinates> = Vec::new();
        let mut i: usize = 0;
        while i < member_count
            invariant
                is_suffix_of(loop_rest@, input),
                loop_rest@.len() < input.len(),
                0 <= i <= member_count,
                buf@.len() == i,
            decreases member_count - i,
        {
            let (new_rest, member) = DeltaCoordinates::try_from_uper(loop_rest)?;
            buf.push(member);
            loop_rest = new_rest;
            i += 1;
        }
        let sequence = Self { first_edge, edges: buf };
        Ok((loop_rest, sequence))
    }
}

/// The series a tariff belongs to.
#[derive(Clone, Debug, PartialEq, Eq)]
pub struct SeriesDetailType {
    pub supplying_carrier: Option<Integer>,
    pub offer_identification: Option<Integer>,
    pub series: Option<Integer>,
}

impl SeriesDetailType {
    pub fn try_from_uper<'a>(rest: &'a [bool]) -> (r: ParseResult<'a, Self>)
        ensures
            r matches Ok((remaining, _)) ==> is_suffix_of(remaining@, rest@) && remaining@.len()
                < rest@.len(),
            ({
                let b = rest@;
                match r {
                    Ok((remaining, v)) => b.len() >= 3 && ({
                        let b1 = b.skip(3);
                        let f1 = if b[0] {
                            match asn1_uper::spec_decode_constrained_int(b1, 1, 32000) {
                                asn1_uper::NumberOutcome::Taken { consumed, value } => (
                                b1.skip(consumed), value, true),
                                _ => (b1, 0int, false),
                            }
                        } else {
                            (b1, 0int, true)
                        };
                        let f2 = if b[1] {
                            match asn1_uper::spec_decode_constrained_int(f1.0, 1, 99) {
                                asn1_uper::NumberOutcome::Taken { consumed, value } => (
                                f1.0.skip(consumed), value, true),
                                _ => (f1.0, 0int, false),
                            }
                        } else {
                            (f1.0, 0int, true)
                        };
                        let f3 = if b[2] {
                            match asn1_uper::spec_decode_octet_int(f2.0, None) {
                                asn1_uper::NumberOutcome::Taken { consumed, value } => (
                                f2.0.skip(consumed), value, true),
                                _ => (f2.0, 0int, false),
                            }
                        } else {
                            (f2.0, 0int, true)
                        };
                        &&& f1.2
                        &&& f2.2
                        &&& f3.2
                        &&& (v.supplying_carrier is Some) == b[0]
                        &&& (b[0] ==> (v.supplying_carrier matches Some(x) && x@ == f1.1))
                        &&& (v.offer_identification is Some) == b[1]
                        &&& (b[1] ==> (v.offer_identification matches Some(x) && x@ == f2.1))
                        &&& (v.series is Some) == b[2]
                        &&& (b[2] ==> (v.series matches Some(x) && x@ == f3.1))
                        &&& remaining@ == f3.0
                    }),
                    Err(_) => true,
                }
            }),
    {
        let (rest, optional_bits) = asn1_uper::decode_bools(rest, 3)?;
        let (rest, supplying_carrier) = if optional_bits[0] {
            let (rest, value) = decode_constrained_integer_field(rest, 1, 32000)?;
            (rest, Some(value))
        } else {
            (rest, None)
        };
        let (rest, offer_identification) = if optional_bits[1] {
            let (rest, value) = decode_constrained_integer_field(rest, 1, 99)?;
            (rest, Some(value))
        } else {
            (rest, None)
        };
        let (rest, series) = if optional_bits[2] {
            let (rest, value) = decode_unconstrained_integer_field(rest)?;
            (rest, Some(value))
        } else {
            (rest, None)
        };
        let sequence = Self { supplying_carrier, offer_identification, series };
        Ok((rest, sequence))
    }
}

/// One value-added-tax entry of a price.
#[derive(Clone, Debug, PartialEq, Eq)]
pub struct VatDetailType {
    pub country: Integer,
    pub percentage: Integer,
    pub amount: Option<Integer>,
    pub vat_id: Option<String>,
}

impl VatDetailType {
    #[verifier::rlimit(40)]
    pub fn try_from_uper<'a>(rest: &'a [bool]) -> (r: ParseResult<'a, Self>)
        ensures
            r matches Ok((remaining, _)) ==> is_suffix_of(remaining@, rest@) && remaining@.len()
                < rest@.len(),
            ({
                let b = rest@;
                match r {
                    Ok((remaining, v)) => b.len() >= 2 && ({
                        let b1 = b.skip(2);
                        match asn1_uper::spec_decode_constrained_int(b1, 1, 999) {
                            asn1_uper::NumberOutcome::Taken { consumed: c1, value: country } => (
                            match asn1_uper::spec_decode_constrained_int(b1.skip(c1), 0, 999) {
                                asn1_uper::NumberOutcome::Taken {
                                    consumed: c2,
                                    value: percentage,
                                } => ({
                                    let b3 = b1.skip(c1).skip(c2);
                                    let fa = if b[0] {
                                        match asn1_uper::spec_decode_octet_int(b3, None) {
                                            asn1_uper::NumberOutcome::Taken { consumed, value } => (
                                            b3.skip(consumed), value, true),
                                            _ => (b3, 0int, false),
                                        }
                                    } else {
                                        (b3, 0int, true)
                                    };
                                    let b4 = fa.0;
                                    let fv = if b[1] {
                                        match asn1_uper::spec_decode_string(
                                            b4,
                                            WholeNumberConstraint::Unconstrained,
                                            7,
                                        ) {
                                            asn1_uper::BytesOutcome::Taken { consumed, bytes } => if vstd::utf8::valid_utf8(
                                                bytes,
                                            ) {
                                                (
                                                    b4.skip(consumed),
                                                    vstd::utf8::decode_utf8(bytes),
                                                    true,
                                                )
                                            } else {
                                                (b4, Seq::<char>::empty(), false)
                                            },
                                            _ => (b4, Seq::<char>::empty(), false),
                                        }
                                    } else {
                                        (b4, Seq::<char>::empty(), true)
                                    };
                                    &&& v.country@ == country
                                    &&& v.percentage@ == percentage
                                    &&& fa.2
                                    &&& fv.2
                                    &&& (v.amount is Some) == b[0]
                                    &&& (b[0] ==> (v.amount matches Some(a) && a@ == fa.1))
                                    &&& (v.vat_id is Some) == b[1]
                                    &&& (b[1] ==> (v.vat_id matches Some(sid) && sid@ == fv.1))
                                    &&& remaining@ == fv.0
                                }),
                                _ => false,
                            }),
                            _ => false,
                        }
                    }),
                    Err(_) => true,
                }
            }),
    {
        let (rest, optional_bits) = asn1_uper::decode_bools(rest, 2)?;
        let (rest, country) = decode_constrained_integer_field(rest, 1, 999)?;
        let (rest, percentage) = decode_constrained_integer_field(rest, 0, 999)?;
        let (rest, amount) = if optional_bits[0] {
            let (rest, value) = decode_unconstrained_integer_field(rest)?;
            (rest, Some(value))
        } else {
            (rest, None)
        };
        let (rest, vat_id) = if optional_bits[1] {
            let (rest, value) = decode_ia5_string_field(rest)?;
            (rest, Some(value))
        } else {
            (rest, None)
        };
        let sequence = Self { country, percentage, amount, vat_id };
        Ok((rest, sequence))
    }
}

/// An access token carried alongside a ticket.
#[derive(Clone, Debug, PartialEq, Eq)]
pub struct TokenType {
    pub token_provider_num: Option<Integer>,
    pub token_provider_ia_5: Option<String>,
    pub token_specification: Option<String>,
    pub token: Vec<u8>,
}

impl TokenType {
    #[verifier::rlimit(40)]
    pub fn try_from_uper<'a>(rest: &'a [bool]) -> (r: ParseResult<'a, Self>)
        ensures
            r matches Ok((remaining, _)) ==> is_suffix_of(remaining@, rest@) && remaining@.len()
                < rest@.len(),
            ({
                let b = rest@;
                match r {
                    Ok((remaining, v)) => b.len() >= 3 && ({
                        let b1 = b.skip(3);
                        let fp = if b[0] {
                            match asn1_uper::spec_decode_octet_int(b1, None) {
                                asn1_uper::NumberOutcome::Taken { consumed, value } => (
                                b1.skip(consumed), value, true),
                                _ => (b1, 0int, false),
                            }
                        } else {
                            (b1, 0int, true)
                        };
                        let b2 = fp.0;
                        let fi = if b[1] {
                            match asn1_uper::spec_decode_string(
                                b2,
                                WholeNumberConstraint::Unconstrained,
                                7,
                            ) {
                                asn1_uper::BytesOutcome::Taken { consumed, bytes } => if vstd::utf8::valid_utf8(
                                    bytes,
                                ) {
                                    (b2.skip(consumed), vstd::utf8::decode_utf8(bytes), true)
                                } else {
                                    (b2, Seq::<char>::empty(), false)
                                },
                                _ => (b2, Seq::<char>::empty(), false),
                            }
                        } else {
                            (b2, Seq::<char>::empty(), true)
                        };
                        let b3 = fi.0;
                        let fs = if b[2] {
                            match asn1_uper::spec_decode_string(
                                b3,
                                WholeNumberConstraint::Unconstrained,
                                7,
                            ) {
                                asn1_uper::BytesOutcome::Taken { consumed, bytes } => if vstd::utf8::valid_utf8(
                                    bytes,
                                ) {
                                    (b3.skip(consumed), vstd::utf8::decode_utf8(bytes), true)
                                } else {
                                    (b3, Seq::<char>::empty(), false)
                                },
                                _ => (b3, Seq::<char>::empty(), false),
                            }
                        } else {
                            (b3, Seq::<char>::empty(), true)
                        };
                        let b4 = fs.0;
                        match asn1_uper::spec_decode_string(
                            b4,
                            WholeNumberConstraint::Unconstrained,
                            8,
                        ) {
                            asn1_uper::BytesOutcome::Taken { consumed: ct, bytes: token } => {
                                &&& fp.2
                                &&& fi.2
                                &&& fs.2
                                &&& (v.token_provider_num is Some) == b[0]
                                &&& (b[0] ==> (v.token_provider_num matches Some(n) && n@ == fp.1))
                                &&& (v.token_provider_ia_5 is Some) == b[1]
                                &&& (b[1] ==> (v.token_provider_ia_5 matches Some(p) && p@ == fi.1))
                                &&& (v.token_specification is Some) == b[2]
                                &&& (b[2] ==> (v.token_specification matches Some(t) && t@ == fs.1))
                                &&& v.token@ == token
                                &&& remaining@ == b4.skip(ct)
                            },
                            _ => false,
                        }
                    }),
                    Err(_) => true,
                }
            }),
    {
        let (rest, optional_bits) = asn1_uper::decode_bools(rest, 3)?;
        let (rest, token_provider_num) = if optional_bits[0] {
            let (rest, value) = decode_unconstrained_integer_field(rest)?;
            (rest, Some(value))
        } else {
            (rest, None)
        };
        let (rest, token_provider_ia_5) = if optional_bits[1] {
            let (rest, value) = decode_ia5_string_field(rest)?;
            (rest, Some(value))
        } else {
            (rest, None)
        };
        let (rest, token_specification) = if optional_bits[2] {
            let (rest, value) = decode_ia5_string_field(rest)?;
            (rest, Some(value))
        } else {
            (rest, None)
        };
        let (rest, token) = decode_octet_string_field(rest)?;
        let sequence = Self {
            token_provider_num,
            token_provider_ia_5,
            token_specification,
            token,
        };
        Ok((rest, sequence))
    }
}

/// A customer's standing with a status provider.
#[derive(Clone, Debug, PartialEq, Eq)]
pub struct CustomerStatusType {
    pub status_provider_num: Option<Integer>,
    pub status_provider_ia_5: Option<String>,
    pub customer_status: Option<Integer>,
    pub customer_status_descr: Option<String>,
}

impl CustomerStatusType {
    #[verifier::rlimit(40)]
    pub fn try_from_uper<'a>(rest: &'a [bool]) -> (r: ParseResult<'a, Self>)
        ensures
            r matches Ok((remaining, _)) ==> is_suffix_of(remaining@, rest@) && remaining@.len()
                < rest@.len(),
            ({
                let b = rest@;
                match r {
                    Ok((remaining, v)) => b.len() >= 4 && ({
                        let b1 = b.skip(4);
                        let f1 = if b[0] {
                            match asn1_uper::spec_decode_constrained_int(b1, 1, 32000) {
                                asn1_uper::NumberOutcome::Taken { consumed, value } => (
                                b1.skip(consumed), value, true),
                                _ => (b1, 0int, false),
                            }
                        } else {
                            (b1, 0int, true)
                        };
                        let f2 = if b[1] {
                            match asn1_uper::spec_decode_string(
                                f1.0,
                                WholeNumberConstraint::Unconstrained,
                                7,
                            ) {
                                asn1_uper::BytesOutcome::Taken { consumed, bytes } => if vstd::utf8::valid_utf8(
                                    bytes,
                                ) {
                                    (f1.0.skip(consumed), vstd::utf8::decode_utf8(bytes), true)
                                } else {
                                    (f1.0, Seq::<char>::empty(), false)
                                },
                                _ => (f1.0, Seq::<char>::empty(), false),
                            }
                        } else {
                            (f1.0, Seq::<char>::empty(), true)
                        };
                        let f3 = if b[2] {
                            match asn1_uper::spec_decode_octet_int(f2.0, None) {
                                asn1_uper::NumberOutcome::Taken { consumed, value } => (
                                f2.0.skip(consumed), value, true),
                                _ => (f2.0, 0int, false),
                            }
                        } else {
                            (f2.0, 0int, true)
                        };
                        let f4 = if b[3] {
                            match asn1_uper::spec_decode_string(
                                f3.0,
                                WholeNumberConstraint::Unconstrained,
                                7,
                            ) {
                                asn1_uper::BytesOutcome::Taken { consumed, bytes } => if vstd::utf8::valid_utf8(
                                    bytes,
                                ) {
                                    (f3.0.skip(consumed), vstd::utf8::decode_utf8(bytes), true)
                                } else {
                                    (f3.0, Seq::<char>::empty(), false)
                                },
                                _ => (f3.0, Seq::<char>::empty(), false),
                            }
                        } else {
                            (f3.0, Seq::<char>::empty(), true)
                        };
                        &&& f1.2
                        &&& f2.2
                        &&& f3.2
                        &&& f4.2
                        &&& (v.status_provider_num is Some) == b[0]
                        &&& (b[0] ==> (v.status_provider_num matches Some(x) && x@ == f1.1))
                        &&& (v.status_provider_ia_5 is Some) == b[1]
                        &&& (b[1] ==> (v.status_provider_ia_5 matches Some(x) && x@ == f2.1))
                        &&& (v.customer_status is Some) == b[2]
                        &&& (b[2] ==> (v.customer_status matches Some(x) && x@ == f3.1))
                        &&& (v.customer_status_descr is Some) == b[3]
                        &&& (b[3] ==> (v.customer_status_descr matches Some(x) && x@ == f4.1))
                        &&& remaining@ == f4.0
                    }),
                    Err(_) => true,
                }
            }),
    {
        let (rest, optional_bits) = asn1_uper::decode_bools(rest, 4)?;
        let (rest, status_provider_num) = if optional_bits[0] {
            let (rest, value) = decode_constrained_integer_field(rest, 1, 32000)?;
            (rest, Some(value))
        } else {
            (rest, None)
        };
        let (rest, status_provider_ia_5) = if optional_bits[1] {
            let (rest, value) = decode_ia5_string_field(rest)?;
            (rest, Some(value))
        } else {
            (rest, None)
        };
        let (rest, customer_status) = if optional_bits[2] {
            let (rest, value) = decode_unconstrained_integer_field(rest)?;
            (rest, Some(value))
        } else {
            (rest, None)
        };
        let (rest, customer_status_descr) = if optional_bits[3] {
            let (rest, value) = decode_ia5_string_field(rest)?;
            (rest, Some(value))
        } else {
            (rest, None)
        };
        let sequence = Self {
            status_provider_num,
            status_provider_ia_5,
            customer_status,
            customer_status_descr,
        };
        Ok((rest, sequence))
    }
}

/// A reference to a customer card a ticket is bound to.
#[derive(Clone, Debug, PartialEq, Eq)]
pub struct CardReferenceType {
    pub card_issuer_num: Option<Integer>,
    pub card_issuer_ia_5: Option<String>,
    pub card_id_num: Option<Integer>,
    pub card_id_ia_5: Option<String>,
    pub card_name: Option<String>,
    pub card_type: Option<Integer>,
    pub leading_card_id_num: Option<Integer>,
    pub leading_card_id_ia_5: Option<String>,
    pub trailing_card_id_num: Option<Integer>,
    pub trailing_card_id_ia_5: Option<String>,
}

impl CardReferenceType {
    #[verifier::rlimit(60)]
    pub fn try_from_uper<'a>(rest: &'a [bool]) -> (r: ParseResult<'a, Self>)
        ensures
            r matches Ok((remaining, _)) ==> is_suffix_of(remaining@, rest@) && remaining@.len()
                < rest@.len(),
            ({
                let b = rest@;
                match r {
                    Ok((remaining, v)) => b.len() >= 1 && !b[0] && b.skip(1).len() >= 10 && ({
                        let b1 = b.skip(1);
                        let b2 = b1.skip(10);
                        let f1 = if b1[0] {
                            match asn1_uper::spec_decode_constrained_int(b2, 1, 32000) {
                                asn1_uper::NumberOutcome::Taken { consumed, value } => (
                                b2.skip(consumed), value, true),
                                _ => (b2, 0int, false),
                            }
                        } else {
                            (b2, 0int, true)
                        };
                        let f2 = if b1[1] {
                            match asn1_uper::spec_decode_string(
                                f1.0,
                                WholeNumberConstraint::Unconstrained,
                                7,
                            ) {
                                asn1_uper::BytesOutcome::Taken { consumed, bytes } => if vstd::utf8::valid_utf8(
                                    bytes,
                                ) {
                                    (f1.0.skip(consumed), vstd::utf8::decode_utf8(bytes), true)
                                } else {
                                    (f1.0, Seq::<char>::empty(), false)
                                },
                                _ => (f1.0, Seq::<char>::empty(), false),
                            }
                        } else {
                            (f1.0, Seq::<char>::empty(), true)
                        };
                        let f3 = if b1[2] {
                            match asn1_uper::spec_decode_octet_int(f2.0, None) {
                                asn1_uper::NumberOutcome::Taken { consumed, value } => (
                                f2.0.skip(consumed), value, true),
                                _ => (f2.0, 0int, false),
                            }
                        } else {
                            (f2.0, 0int, true)
                        };
                        let f4 = if b1[3] {
                            match asn1_uper::spec_decode_string(
                                f3.0,
                                WholeNumberConstraint::Unconstrained,
                                7,
                            ) {
                                asn1_uper::BytesOutcome::Taken { consumed, bytes } => if vstd::utf8::valid_utf8(
                                    bytes,
                                ) {
                                    (f3.0.skip(consumed), vstd::utf8::decode_utf8(bytes), true)
                                } else {
                                    (f3.0, Seq::<char>::empty(), false)
                                },
                                _ => (f3.0, Seq::<char>::empty(), false),
                            }
                        } else {
                            (f3.0, Seq::<char>::empty(), true)
                        };
                        let f5 = if b1[4] {
                            match asn1_uper::spec_decode_string(
                                f4.0,
                                WholeNumberConstraint::Unconstrained,
                                8,
                            ) {
                                asn1_uper::BytesOutcome::Taken { consumed, bytes } => if vstd::utf8::valid_utf8(
                                    bytes,
                                ) {
                                    (f4.0.skip(consumed), vstd::utf8::decode_utf8(bytes), true)
                                } else {
                                    (f4.0, Seq::<char>::empty(), false)
                                },
                                _ => (f4.0, Seq::<char>::empty(), false),
                            }
                        } else {
                            (f4.0, Seq::<char>::empty(), true)
                        };
                        let f6 = if b1[5] {
                            match asn1_uper::spec_decode_octet_int(f5.0, None) {
                                asn1_uper::NumberOutcome::Taken { consumed, value } => (
                                f5.0.skip(consumed), value, true),
                                _ => (f5.0, 0int, false),
                            }
                        } else {
                            (f5.0, 0int, true)
                        };
                        let f7 = if b1[6] {
                            match asn1_uper::spec_decode_octet_int(f6.0, None) {
                                asn1_uper::NumberOutcome::Taken { consumed, value } => (
                                f6.0.skip(consumed), value, true),
                                _ => (f6.0, 0int, false),
                            }
                        } else {
                            (f6.0, 0int, true)
                        };
                        let f8 = if b1[7] {
                            match asn1_uper::spec_decode_string(
                                f7.0,
                                WholeNumberConstraint::Unconstrained,
                                7,
                            ) {
                                asn1_uper::BytesOutcome::Taken { consumed, bytes } => if vstd::utf8::valid_utf8(
                                    bytes,
                                ) {
                                    (f7.0.skip(consumed), vstd::utf8::decode_utf8(bytes), true)
                                } else {
                                    (f7.0, Seq::<char>::empty(), false)
                                },
                                _ => (f7.0, Seq::<char>::empty(), false),
                            }
                        } else {
                            (f7.0, Seq::<char>::empty(), true)
                        };
                        let f9 = if b1[8] {
                            match asn1_uper::spec_decode_octet_int(f8.0, None) {
                                asn1_uper::NumberOutcome::Taken { consumed, value } => (
                                f8.0.skip(consumed), value, true),
                                _ => (f8.0, 0int, false),
                            }
                        } else {
                            (f8.0, 0int, true)
                        };
                        let f10 = if b1[9] {
                            match asn1_uper::spec_decode_string(
                                f9.0,
                                WholeNumberConstraint::Unconstrained,
                                7,
                            ) {
                                asn1_uper::BytesOutcome::Taken { consumed, bytes } => if vstd::utf8::valid_utf8(
                                    bytes,
                                ) {
                                    (f9.0.skip(consumed), vstd::utf8::decode_utf8(bytes), true)
                                } else {
                                    (f9.0, Seq::<char>::empty(), false)
                                },
                                _ => (f9.0, Seq::<char>::empty(), false),
                            }
                        } else {
                            (f9.0, Seq::<char>::empty(), true)
                        };
                        &&& f1.2
                        &&& f2.2
                        &&& f3.2
                        &&& f4.2
                        &&& f5.2
                        &&& f6.2
                        &&& f7.2
                        &&& f8.2
                        &&& f9.2
                        &&& f10.2
                        &&& (v.card_issuer_num is Some) == b1[0]
                        &&& (b1[0] ==> (v.card_issuer_num matches Some(x) && x@ == f1.1))
                        &&& (v.card_issuer_ia_5 is Some) == b1[1]
                        &&& (b1[1] ==> (v.card_issuer_ia_5 matches Some(x) && x@ == f2.1))
                        &&& (v.card_id_num is Some) == b1[2]
                        &&& (b1[2] ==> (v.card_id_num matches Some(x) && x@ == f3.1))
                        &&& (v.card_id_ia_5 is Some) == b1[3]
                        &&& (b1[3] ==> (v.card_id_ia_5 matches Some(x) && x@ == f4.1))
                        &&& (v.card_name is Some) == b1[4]
                        &&& (b1[4] ==> (v.card_name matches Some(x) && x@ == f5.1))
                        &&& (v.card_type is Some) == b1[5]
                        &&& (b1[5] ==> (v.card_type matches Some(x) && x@ == f6.1))
                        &&& (v.leading_card_id_num is Some) == b1[6]
                        &&& (b1[6] ==> (v.leading_card_id_num matches Some(x) && x@ == f7.1))
                        &&& (v.leading_card_id_ia_5 is Some) == b1[7]
                        &&& (b1[7] ==> (v.leading_card_id_ia_5 matches Some(x) && x@ == f8.1))
                        &&& (v.trailing_card_id_num is Some) == b1[8]
                        &&& (b1[8] ==> (v.trailing_card_id_num matches Some(x) && x@ == f9.1))
                        &&& (v.trailing_card_id_ia_5 is Some) == b1[9]
                        &&& (b1[9] ==> (v.trailing_card_id_ia_5 matches Some(x) && x@ == f10.1))
                        &&& remaining@ == f10.0
                    }),
                    Err(_) => true,
                }
            }),
    {
        let (rest, _) = decode_extension_marker(rest)?;
        let (rest, optional_bits) = asn1_uper::decode_bools(rest, 10)?;
        let (rest, card_issuer_num) = if optional_bits[0] {
            let (rest, value) = decode_constrained_integer_field(rest, 1, 32000)?;
            (rest, Some(value))
        } else {
            (rest, None)
        };
        let (rest, card_issuer_ia_5) = if optional_bits[1] {
            let (rest, value) = decode_ia5_string_field(rest)?;
            (rest, Some(value))
        } else {
            (rest, None)
        };
        let (rest, card_id_num) = if optional_bits[2] {
            let (rest, value) = decode_unconstrained_integer_field(rest)?;
            (rest, Some(value))
        } else {
            (rest, None)
        };
        let (rest, card_id_ia_5) = if optional_bits[3] {
            let (rest, value) = decode_ia5_string_field(rest)?;
            (rest, Some(value))
        } else {
            (rest, None)
        };
        let (rest, card_name) = if optional_bits[4] {
            let (rest, value) = decode_utf8_octet_string_field(rest)?;
            (rest, Some(value))
        } else {
            (rest, None)
        };
        let (rest, card_type) = if optional_bits[5] {
            let (rest, value) = decode_unconstrained_integer_field(rest)?;
            (rest, Some(value))
        } else {
            (rest, None)
        };
        let (rest, leading_card_id_num) = if optional_bits[6] {
            let (rest, value) = decode_unconstrained_integer_field(rest)?;
            (rest, Some(value))
        } else {
            (rest, None)
        };
        let (rest, leading_card_id_ia_5) = if optional_bits[7] {
            let (rest, value) = decode_ia5_string_field(rest)?;
            (rest, Some(value))
        } else {
            (rest, None)
        };
        let (rest, trailing_card_id_num) = if optional_bits[8] {
            let (rest, value) = decode_unconstrained_integer_field(rest)?;
            (rest, Some(value))
        } else {
            (rest, None)
        };
        let (rest, trailing_card_id_ia_5) = if optional_bits[9] {
            let (rest, value) = decode_ia5_string_field(rest)?;
            (rest, Some(value))
        } else {
            (rest, None)
        };
        let sequence = Self {
            card_issuer_num,
            card_issuer_ia_5,
            card_id_num,
            card_id_ia_5,
            card_name,
            card_type,
            leading_card_id_num,
            leading_card_id_ia_5,
            trailing_card_id_num,
            trailing_card_id_ia_5,
        };
        Ok((rest, sequence))
    }
}

/// A link from one ticket to another it was issued or travels with.
#[derive(Clone, Debug, PartialEq, Eq)]
pub struct TicketLinkType {
    pub reference_ia_5: Option<String>,
    pub reference_num: Option<Integer>,
    pub issuer_name: Option<String>,
    pub issuer_pnr: Option<String>,
    pub product_owner_num: Option<Integer>,
    pub product_owner_ia_5: Option<String>,
    pub ticket_type: TicketType,
    pub link_mode: LinkMode,
}

impl TicketLinkType {
    #[verifier::rlimit(60)]
    pub fn try_from_uper<'a>(rest: &'a [bool]) -> (r: ParseResult<'a, Self>)
        ensures
            r matches Ok((remaining, _)) ==> is_suffix_of(remaining@, rest@) && remaining@.len()
                < rest@.len(),
            ({
                let b = rest@;
                match r {
                    Ok((remaining, v)) => b.len() >= 1 && !b[0] && b.skip(1).len() >= 8 && ({
                        let b1 = b.skip(1);
                        let b2 = b1.skip(8);
                        let f1 = if b1[0] {
                            match asn1_uper::spec_decode_string(
                                b2,
                                WholeNumberConstraint::Unconstrained,
                                7,
                            ) {
                                asn1_uper::BytesOutcome::Taken { consumed, bytes } => if vstd::utf8::valid_utf8(
                                    bytes,
                                ) {
                                    (b2.skip(consumed), vstd::utf8::decode_utf8(bytes), true)
                                } else {
                                    (b2, Seq::<char>::empty(), false)
                                },
                                _ => (b2, Seq::<char>::empty(), false),
                            }
                        } else {
                            (b2, Seq::<char>::empty(), true)
                        };
                        let f2 = if b1[1] {
                            match asn1_uper::spec_decode_octet_int(f1.0, None) {
                                asn1_uper::NumberOutcome::Taken { consumed, value } => (
                                f1.0.skip(consumed), value, true),
                                _ => (f1.0, 0int, false),
                            }
                        } else {
                            (f1.0, 0int, true)
                        };
                        let f3 = if b1[2] {
                            match asn1_uper::spec_decode_string(
                                f2.0,
                                WholeNumberConstraint::Unconstrained,
                                8,
                            ) {
                                asn1_uper::BytesOutcome::Taken { consumed, bytes } => if vstd::utf8::valid_utf8(
                                    bytes,
                                ) {
                                    (f2.0.skip(consumed), vstd::utf8::decode_utf8(bytes), true)
                                } else {
                                    (f2.0, Seq::<char>::empty(), false)
                                },
                                _ => (f2.0, Seq::<char>::empty(), false),
                            }
                        } else {
                            (f2.0, Seq::<char>::empty(), true)
                        };
                        let f4 = if b1[3] {
                            match asn1_uper::spec_decode_string(
                                f3.0,
                                WholeNumberConstraint::Unconstrained,
                                7,
                            ) {
                                asn1_uper::BytesOutcome::Taken { consumed, bytes } => if vstd::utf8::valid_utf8(
                                    bytes,
                                ) {
                                    (f3.0.skip(consumed), vstd::utf8::decode_utf8(bytes), true)
                                } else {
                                    (f3.0, Seq::<char>::empty(), false)
                                },
                                _ => (f3.0, Seq::<char>::empty(), false),
                            }
                        } else {
                            (f3.0, Seq::<char>::empty(), true)
                        };
                        let f5 = if b1[4] {
                            match asn1_uper::spec_decode_constrained_int(f4.0, 1, 32000) {
                                asn1_uper::NumberOutcome::Taken { consumed, value } => (
                                f4.0.skip(consumed), value, true),
                                _ => (f4.0, 0int, false),
                            }
                        } else {
                            (f4.0, 0int, true)
                        };
                        let f6 = if b1[5] {
                            match asn1_uper::spec_decode_string(
                                f5.0,
                                WholeNumberConstraint::Unconstrained,
                                7,
                            ) {
                                asn1_uper::BytesOutcome::Taken { consumed, bytes } => if vstd::utf8::valid_utf8(
                                    bytes,
                                ) {
                                    (f5.0.skip(consumed), vstd::utf8::decode_utf8(bytes), true)
                                } else {
                                    (f5.0, Seq::<char>::empty(), false)
                                },
                                _ => (f5.0, Seq::<char>::empty(), false),
                            }
                        } else {
                            (f5.0, Seq::<char>::empty(), true)
                        };
                        let f7 = if b1[6] {
                            match spec_decode_enum_index(f6.0, true, 3) {
                                IndexOutcome::Taken { consumed, index } => (
                                f6.0.skip(consumed), index, true),
                                _ => (f6.0, 0int, false),
                            }
                        } else {
                            (f6.0, spec_ticket_type_index(TicketType::OpenTicket), true)
                        };
                        let f8 = if b1[7] {
                            match spec_decode_enum_index(f7.0, true, 1) {
                                IndexOutcome::Taken { consumed, index } => (
                                f7.0.skip(consumed), index, true),
                                _ => (f7.0, 0int, false),
                            }
                        } else {
                            (f7.0, spec_link_mode_index(LinkMode::IssuedTogether), true)
                        };
                        &&& f1.2
                        &&& f2.2
                        &&& f3.2
                        &&& f4.2
                        &&& f5.2
                        &&& f6.2
                        &&& f7.2
                        &&& f8.2
                        &&& (v.reference_ia_5 is Some) == b1[0]
                        &&& (b1[0] ==> (v.reference_ia_5 matches Some(x) && x@ == f1.1))
                        &&& (v.reference_num is Some) == b1[1]
                        &&& (b1[1] ==> (v.reference_num matches Some(x) && x@ == f2.1))
                        &&& (v.issuer_name is Some) == b1[2]
                        &&& (b1[2] ==> (v.issuer_name matches Some(x) && x@ == f3.1))
                        &&& (v.issuer_pnr is Some) == b1[3]
                        &&& (b1[3] ==> (v.issuer_pnr matches Some(x) && x@ == f4.1))
                        &&& (v.product_owner_num is Some) == b1[4]
                        &&& (b1[4] ==> (v.product_owner_num matches Some(x) && x@ == f5.1))
                        &&& (v.product_owner_ia_5 is Some) == b1[5]
                        &&& (b1[5] ==> (v.product_owner_ia_5 matches Some(x) && x@ == f6.1))
                        &&& spec_ticket_type_index(v.ticket_type) == f7.1
                        &&& spec_link_mode_index(v.link_mode) == f8.1
                        &&& remaining@ == f8.0
                    }),
                    Err(_) => true,
                }
            }),
    {
        let (rest, _) = decode_extension_marker(rest)?;
        let (rest, optional_bits) = asn1_uper::decode_bools(rest, 8)?;
        let (rest, reference_ia_5) = if optional_bits[0] {
            let (rest, value) = decode_ia5_string_field(rest)?;
            (rest, Some(value))
        } else {
            (rest, None)
        };
        let (rest, reference_num) = if optional_bits[1] {
            let (rest, value) = decode_unconstrained_integer_field(rest)?;
            (rest, Some(value))
        } else {
            (rest, None)
        };
        let (rest, issuer_name) = if optional_bits[2] {
            let (rest, value) = decode_utf8_octet_string_field(rest)?;
            (rest, Some(value))
        } else {
            (rest, None)
        };
        let (rest, issuer_pnr) = if optional_bits[3] {
            let (rest, value) = decode_ia5_string_field(rest)?;
            (rest, Some(value))
        } else {
            (rest, None)
        };
        let (rest, product_owner_num) = if optional_bits[4] {
            let (rest, value) = decode_constrained_integer_field(rest, 1, 32000)?;
            (rest, Some(value))
        } else {
            (rest, None)
        };
        let (rest, product_owner_ia_5) = if optional_bits[5] {
            let (rest, value) = decode_ia5_string_field(rest)?;
            (rest, Some(value))
        } else {
            (rest, None)
        };
        let (rest, ticket_type) = if optional_bits[6] {
            TicketType::try_from_uper(rest)?
        } else {
            (rest, TicketType::OpenTicket)
        };
        let (rest, link_mode) = if optional_bits[7] {
            LinkMode::try_from_uper(rest)?
        } else {
            (rest, LinkMode::IssuedTogether)
        };
        let sequence = Self {
            reference_ia_5,
            reference_num,
            issuer_name,
            issuer_pnr,
            product_owner_num,
            product_owner_ia_5,
            ticket_type,
            link_mode,
        };
        Ok((rest, sequence))
    }
}

/// One section of a route, between two stations.
#[derive(Clone, Debug, PartialEq, Eq)]
pub struct RouteSectionType {
    pub station_code_table: CodeTableType,
    pub from_station_num: Option<Integer>,
    pub from_station_ia_5: Option<String>,
    pub to_station_num: Option<Integer>,
    pub to_station_ia_5: Option<String>,
    pub from_station_name_utf_8: Option<String>,
    pub to_station_name_utf_8: Option<String>,
}

impl RouteSectionType {
    #[verifier::rlimit(60)]
    pub fn try_from_uper<'a>(rest: &'a [bool]) -> (r: ParseResult<'a, Self>)
        ensures
            r matches Ok((remaining, _)) ==> is_suffix_of(remaining@, rest@) && remaining@.len()
                < rest@.len(),
            ({
                let b = rest@;
                match r {
                    Ok((remaining, v)) => b.len() >= 7 && ({
                        let b1 = b.skip(7);
                        let f1 = if b[0] {
                            match spec_decode_enum_index(b1, false, 4) {
                                IndexOutcome::Taken { consumed, index } => (
                                b1.skip(consumed), index, true),
                                _ => (b1, 0int, false),
                            }
                        } else {
                            (b1, spec_code_table_type_index(CodeTableType::StationUic), true)
                        };
                        let f2 = if b[1] {
                            match asn1_uper::spec_decode_constrained_int(f1.0, 1, 9999999) {
                                asn1_uper::NumberOutcome::Taken { consumed, value } => (
                                f1.0.skip(consumed), value, true),
                                _ => (f1.0, 0int, false),
                            }
                        } else {
                            (f1.0, 0int, true)
                        };
                        let f3 = if b[2] {
                            match asn1_uper::spec_decode_string(
                                f2.0,
                                WholeNumberConstraint::Unconstrained,
                                7,
                            ) {
                                asn1_uper::BytesOutcome::Taken { consumed, bytes } => if vstd::utf8::valid_utf8(
                                    bytes,
                                ) {
                                    (f2.0.skip(consumed), vstd::utf8::decode_utf8(bytes), true)
                                } else {
                                    (f2.0, Seq::<char>::empty(), false)
                                },
                                _ => (f2.0, Seq::<char>::empty(), false),
                            }
                        } else {
                            (f2.0, Seq::<char>::empty(), true)
                        };
                        let f4 = if b[3] {
                            match asn1_uper::spec_decode_constrained_int(f3.0, 1, 9999999) {
                                asn1_uper::NumberOutcome::Taken { consumed, value } => (
                                f3.0.skip(consumed), value, true),
                                _ => (f3.0, 0int, false),
                            }
                        } else {
                            (f3.0, 0int, true)
                        };
                        let f5 = if b[4] {
                            match asn1_uper::spec_decode_string(
                                f4.0,
                                WholeNumberConstraint::Unconstrained,
                                7,
                            ) {
                                asn1_uper::BytesOutcome::Taken { consumed, bytes } => if vstd::utf8::valid_utf8(
                                    bytes,
                                ) {
                                    (f4.0.skip(consumed), vstd::utf8::decode_utf8(bytes), true)
                                } else {
                                    (f4.0, Seq::<char>::empty(), false)
                                },
                                _ => (f4.0, Seq::<char>::empty(), false),
                            }
                        } else {
                            (f4.0, Seq::<char>::empty(), true)
                        };
                        let f6 = if b[5] {
                            match asn1_uper::spec_decode_string(
                                f5.0,
                                WholeNumberConstraint::Unconstrained,
                                8,
                            ) {
                                asn1_uper::BytesOutcome::Taken { consumed, bytes } => if vstd::utf8::valid_utf8(
                                    bytes,
                                ) {
                                    (f5.0.skip(consumed), vstd::utf8::decode_utf8(bytes), true)
                                } else {
                                    (f5.0, Seq::<char>::empty(), false)
                                },
                                _ => (f5.0, Seq::<char>::empty(), false),
                            }
                        } else {
                            (f5.0, Seq::<char>::empty(), true)
                        };
                        let f7 = if b[6] {
                            match asn1_uper::spec_decode_string(
                                f6.0,
                                WholeNumberConstraint::Unconstrained,
                                8,
                            ) {
                                asn1_uper::BytesOutcome::Taken { consumed, bytes } => if vstd::utf8::valid_utf8(
                                    bytes,
                                ) {
                                    (f6.0.skip(consumed), vstd::utf8::decode_utf8(bytes), true)
                                } else {
                                    (f6.0, Seq::<char>::empty(), false)
                                },
                                _ => (f6.0, Seq::<char>::empty(), false),
                            }
                        } else {
                            (f6.0, Seq::<char>::empty(), true)
                        };
                        &&& f1.2
                        &&& f2.2
                        &&& f3.2
                        &&& f4.2
                        &&& f5.2
                        &&& f6.2
                        &&& f7.2
                        &&& spec_code_table_type_index(v.station_code_table) == f1.1
                        &&& (v.from_station_num is Some) == b[1]
                        &&& (b[1] ==> (v.from_station_num matches Some(x) && x@ == f2.1))
                        &&& (v.from_station_ia_5 is Some) == b[2]
                        &&& (b[2] ==> (v.from_station_ia_5 matches Some(x) && x@ == f3.1))
                        &&& (v.to_station_num is Some) == b[3]
                        &&& (b[3] ==> (v.to_station_num matches Some(x) && x@ == f4.1))
                        &&& (v.to_station_ia_5 is Some) == b[4]
                        &&& (b[4] ==> (v.to_station_ia_5 matches Some(x) && x@ == f5.1))
                        &&& (v.from_station_name_utf_8 is Some) == b[5]
                        &&& (b[5] ==> (v.from_station_name_utf_8 matches Some(x) && x@ == f6.1))
                        &&& (v.to_station_name_utf_8 is Some) == b[6]
                        &&& (b[6] ==> (v.to_station_name_utf_8 matches Some(x) && x@ == f7.1))
                        &&& remaining@ == f7.0
                    }),
                    Err(_) => true,
                }
            }),
    {
        let (rest, optional_bits) = asn1_uper::decode_bools(rest, 7)?;
        let (rest, station_code_table) = if optional_bits[0] {
            CodeTableType::try_from_uper(rest)?
        } else {
            (rest, CodeTableType::StationUic)
        };
        let (rest, from_station_num) = if optional_bits[1] {
            let (rest, value) = decode_constrained_integer_field(rest, 1, 9999999)?;
            (rest, Some(value))
        } else {
            (rest, None)
        };
        let (rest, from_station_ia_5) = if optional_bits[2] {
            let (rest, value) = decode_ia5_string_field(rest)?;
            (rest, Some(value))
        } else {
            (rest, None)
        };
        let (rest, to_station_num) = if optional_bits[3] {
            let (rest, value) = decode_constrained_integer_field(rest, 1, 9999999)?;
            (rest, Some(value))
        } else {
            (rest, None)
        };
        let (rest, to_station_ia_5) = if optional_bits[4] {
            let (rest, value) = decode_ia5_string_field(rest)?;
            (rest, Some(value))
        } else {
            (rest, None)
        };
        let (rest, from_station_name_utf_8) = if optional_bits[5] {
            let (rest, value) = decode_utf8_octet_string_field(rest)?;
            (rest, Some(value))
        } else {
            (rest, None)
        };
        let (rest, to_station_name_utf_8) = if optional_bits[6] {
            let (rest, value) = decode_utf8_octet_string_field(rest)?;
            (rest, Some(value))
        } else {
            (rest, None)
        };
        let sequence = Self {
            station_code_table,
            from_station_num,
            from_station_ia_5,
            to_station_num,
            to_station_ia_5,
            from_station_name_utf_8,
            to_station_name_utf_8,
        };
        Ok((rest, sequence))
    }
}

/// A voucher to be redeemed against a later purchase.
#[derive(Clone, Debug, PartialEq, Eq)]
pub struct VoucherData {
    pub reference_ia_5: Option<String>,
    pub reference_num: Option<Integer>,
    pub product_owner_num: Option<Integer>,
    pub product_owner_ia_5: Option<String>,
    pub product_id_num: Option<Integer>,
    pub product_id_ia_5: Option<String>,
    pub valid_from_year: Integer,
    pub valid_from_day: Integer,
    pub valid_until_year: Integer,
    pub valid_until_day: Integer,
    pub value: Integer,
    pub type_: Option<Integer>,
    pub info_text: Option<String>,
    pub extension: Option<ExtensionData>,
}

impl VoucherData {
    #[verifier::rlimit(100)]
    #[verifier::spinoff_prover]
    pub fn try_from_uper<'a>(rest: &'a [bool]) -> (r: ParseResult<'a, Self>)
        ensures
            r matches Ok((remaining, _)) ==> is_suffix_of(remaining@, rest@) && remaining@.len()
                < rest@.len(),
            ({
                let b = rest@;
                match r {
                    Ok((remaining, v)) => b.len() >= 1 && !b[0] && b.skip(1).len() >= 10 && ({
                        let b1 = b.skip(1);
                        let b2 = b1.skip(10);
                        let f1 = if b1[0] {
                            match asn1_uper::spec_decode_string(
                                b2,
                                WholeNumberConstraint::Unconstrained,
                                7,
                            ) {
                                asn1_uper::BytesOutcome::Taken { consumed, bytes } => if vstd::utf8::valid_utf8(
                                    bytes,
                                ) {
                                    (b2.skip(consumed), vstd::utf8::decode_utf8(bytes), true)
                                } else {
                                    (b2, Seq::<char>::empty(), false)
                                },
                                _ => (b2, Seq::<char>::empty(), false),
                            }
                        } else {
                            (b2, Seq::<char>::empty(), true)
                        };
                        let f2 = if b1[1] {
                            match asn1_uper::spec_decode_octet_int(f1.0, None) {
                                asn1_uper::NumberOutcome::Taken { consumed, value } => (
                                f1.0.skip(consumed), value, true),
                                _ => (f1.0, 0int, false),
                            }
                        } else {
                            (f1.0, 0int, true)
                        };
                        let f3 = if b1[2] {
                            match asn1_uper::spec_decode_constrained_int(f2.0, 1, 32000) {
                                asn1_uper::NumberOutcome::Taken { consumed, value } => (
                                f2.0.skip(consumed), value, true),
                                _ => (f2.0, 0int, false),
                            }
                        } else {
                            (f2.0, 0int, true)
                        };
                        let f4 = if b1[3] {
                            match asn1_uper::spec_decode_string(
                                f3.0,
                                WholeNumberConstraint::Unconstrained,
                                7,
                            ) {
                                asn1_uper::BytesOutcome::Taken { consumed, bytes } => if vstd::utf8::valid_utf8(
                                    bytes,
                                ) {
                                    (f3.0.skip(consumed), vstd::utf8::decode_utf8(bytes), true)
                                } else {
                                    (f3.0, Seq::<char>::empty(), false)
                                },
                                _ => (f3.0, Seq::<char>::empty(), false),
                            }
                        } else {
                            (f3.0, Seq::<char>::empty(), true)
                        };
                        let f5 = if b1[4] {
                            match asn1_uper::spec_decode_constrained_int(f4.0, 0, 65535) {
                                asn1_uper::NumberOutcome::Taken { consumed, value } => (
                                f4.0.skip(consumed), value, true),
                                _ => (f4.0, 0int, false),
                            }
                        } else {
                            (f4.0, 0int, true)
                        };
                        let f6 = if b1[5] {
                            match asn1_uper::spec_decode_string(
                                f5.0,
                                WholeNumberConstraint::Unconstrained,
                                7,
                            ) {
                                asn1_uper::BytesOutcome::Taken { consumed, bytes } => if vstd::utf8::valid_utf8(
                                    bytes,
                                ) {
                                    (f5.0.skip(consumed), vstd::utf8::decode_utf8(bytes), true)
                                } else {
                                    (f5.0, Seq::<char>::empty(), false)
                                },
                                _ => (f5.0, Seq::<char>::empty(), false),
                            }
                        } else {
                            (f5.0, Seq::<char>::empty(), true)
                        };
                        let f7 = match asn1_uper::spec_decode_constrained_int(
                            f6.0,
                            2016,
                            2269,
                        ) {
                            asn1_uper::NumberOutcome::Taken { consumed, value } => (
                            f6.0.skip(consumed), value, true),
                            _ => (f6.0, 0int, false),
                        };
                        let f8 = match asn1_uper::spec_decode_constrained_int(
                            f7.0,
                            0,
                            500,
                        ) {
                            asn1_uper::NumberOutcome::Taken { consumed, value } => (
                            f7.0.skip(consumed), value, true),
                            _ => (f7.0, 0int, false),
                        };
                        let f9 = match asn1_uper::spec_decode_constrained_int(
                            f8.0,
                            2016,
                            2269,
                        ) {
                            asn1_uper::NumberOutcome::Taken { consumed, value } => (
                            f8.0.skip(consumed), value, true),
                            _ => (f8.0, 0int, false),
                        };
                        let f10 = match asn1_uper::spec_decode_constrained_int(
                            f9.0,
                            0,
                            500,
                        ) {
                            asn1_uper::NumberOutcome::Taken { consumed, value } => (
                            f9.0.skip(consumed), value, true),
                            _ => (f9.0, 0int, false),
                        };
                        let f11 = if b1[6] {
                            match asn1_uper::spec_decode_octet_int(f10.0, None) {
                                asn1_uper::NumberOutcome::Taken { consumed, value } => (
                                f10.0.skip(consumed), value, true),
                                _ => (f10.0, 0int, false),
                            }
                        } else {
                            (f10.0, 0int, true)
                        };
                        let f12 = if b1[7] {
                            match asn1_uper::spec_decode_constrained_int(f11.0, 1, 32000) {
                                asn1_uper::NumberOutcome::Taken { consumed, value } => (
                                f11.0.skip(consumed), value, true),
                                _ => (f11.0, 0int, false),
                            }
                        } else {
                            (f11.0, 0int, true)
                        };
                        let f13 = if b1[8] {
                            match asn1_uper::spec_decode_string(
                                f12.0,
                                WholeNumberConstraint::Unconstrained,
                                8,
                            ) {
                                asn1_uper::BytesOutcome::Taken { consumed, bytes } => if vstd::utf8::valid_utf8(
                                    bytes,
                                ) {
                                    (f12.0.skip(consumed), vstd::utf8::decode_utf8(bytes), true)
                                } else {
                                    (f12.0, Seq::<char>::empty(), false)
                                },
                                _ => (f12.0, Seq::<char>::empty(), false),
                            }
                        } else {
                            (f12.0, Seq::<char>::empty(), true)
                        };
                        let f14 = if b1[9] {
                            match asn1_uper::spec_decode_string(
                                f13.0,
                                WholeNumberConstraint::Unconstrained,
                                7,
                            ) {
                                asn1_uper::BytesOutcome::Taken { consumed: ec1, bytes: idb } => if vstd::utf8::valid_utf8(
                                    idb,
                                ) {
                                    match asn1_uper::spec_decode_string(
                                        f13.0.skip(ec1),
                                        WholeNumberConstraint::Unconstrained,
                                        8,
                                    ) {
                                        asn1_uper::BytesOutcome::Taken {
                                            consumed: ec2,
                                            bytes: data,
                                        } => (
                                            f13.0.skip(ec1).skip(ec2),
                                            vstd::utf8::decode_utf8(idb),
                                            data,
                                            true,
                                        ),
                                        _ => (f13.0, Seq::<char>::empty(), Seq::<u8>::empty(), false),
                                    }
                                } else {
                                    (f13.0, Seq::<char>::empty(), Seq::<u8>::empty(), false)
                                },
                                _ => (f13.0, Seq::<char>::empty(), Seq::<u8>::empty(), false),
                            }
                        } else {
                            (f13.0, Seq::<char>::empty(), Seq::<u8>::empty(), true)
                        };
                        &&& f1.2
                        &&& f2.2
                        &&& f3.2
                        &&& f4.2
                        &&& f5.2
                        &&& f6.2
                        &&& f7.2
                        &&& f8.2
                        &&& f9.2
                        &&& f10.2
                        &&& f11.2
                        &&& f12.2
                        &&& f13.2
                        &&& f14.3
                        &&& (v.reference_ia_5 is Some) == b1[0]
                        &&& (b1[0] ==> (v.reference_ia_5 matches Some(x) && x@ == f1.1))
                        &&& (v.reference_num is Some) == b1[1]
                        &&& (b1[1] ==> (v.reference_num matches Some(x) && x@ == f2.1))
                        &&& (v.product_owner_num is Some) == b1[2]
                        &&& (b1[2] ==> (v.product_owner_num matches Some(x) && x@ == f3.1))
                        &&& (v.product_owner_ia_5 is Some) == b1[3]
                        &&& (b1[3] ==> (v.product_owner_ia_5 matches Some(x) && x@ == f4.1))
                        &&& (v.product_id_num is Some) == b1[4]
                        &&& (b1[4] ==> (v.product_id_num matches Some(x) && x@ == f5.1))
                        &&& (v.product_id_ia_5 is Some) == b1[5]
                        &&& (b1[5] ==> (v.product_id_ia_5 matches Some(x) && x@ == f6.1))
                        &&& v.valid_from_year@ == f7.1
                        &&& v.valid_from_day@ == f8.1
                        &&& v.valid_until_year@ == f9.1
                        &&& v.valid_until_day@ == f10.1
                        &&& v.value@ == f11.1
                        &&& (v.type_ is Some) == b1[7]
                        &&& (b1[7] ==> (v.type_ matches Some(x) && x@ == f12.1))
                        &&& (v.info_text is Some) == b1[8]
                        &&& (b1[8] ==> (v.info_text matches Some(x) && x@ == f13.1))
                        &&& (v.extension is Some) == b1[9]
                        &&& (b1[9] ==> (v.extension matches Some(e) && e.extension_id@ == f14.1
                            && e.extension_data@ == f14.2))
                        &&& remaining@ == f14.0
                    }),
                    Err(_) => true,
                }
            }),
    {
        let (rest, _) = decode_extension_marker(rest)?;
        let (rest, optional_bits) = asn1_uper::decode_bools(rest, 10)?;
        let (rest, reference_ia_5) = if optional_bits[0] {
            let (rest, value) = decode_ia5_string_field(rest)?;
            (rest, Some(value))
        } else {
            (rest, None)
        };
        let (rest, reference_num) = if optional_bits[1] {
            let (rest, value) = decode_unconstrained_integer_field(rest)?;
            (rest, Some(value))
        } else {
            (rest, None)
        };
        let (rest, product_owner_num) = if optional_bits[2] {
            let (rest, value) = decode_constrained_integer_field(rest, 1, 32000)?;
            (rest, Some(value))
        } else {
            (rest, None)
        };
        let (rest, product_owner_ia_5) = if optional_bits[3] {
            let (rest, value) = decode_ia5_string_field(rest)?;
            (rest, Some(value))
        } else {
            (rest, None)
        };
        let (rest, product_id_num) = if optional_bits[4] {
            let (rest, value) = decode_constrained_integer_field(rest, 0, 65535)?;
            (rest, Some(value))
        } else {
            (rest, None)
        };
        let (rest, product_id_ia_5) = if optional_bits[5] {
            let (rest, value) = decode_ia5_string_field(rest)?;
            (rest, Some(value))
        } else {
            (rest, None)
        };
        let (rest, valid_from_year) = decode_constrained_integer_field(rest, 2016, 2269)?;
        let (rest, valid_from_day) = decode_constrained_integer_field(rest, 0, 500)?;
        let (rest, valid_until_year) = decode_constrained_integer_field(rest, 2016, 2269)?;
        let (rest, valid_until_day) = decode_constrained_integer_field(rest, 0, 500)?;
        let (rest, value) = if optional_bits[6] {
            decode_unconstrained_integer_field(rest)?
        } else {
            (rest, Integer::from_short(0))
        };
        let (rest, type_) = if optional_bits[7] {
            let (rest, value) = decode_constrained_integer_field(rest, 1, 32000)?;
            (rest, Some(value))
        } else {
            (rest, None)
        };
        let (rest, info_text) = if optional_bits[8] {
            let (rest, value) = decode_utf8_octet_string_field(rest)?;
            (rest, Some(value))
        } else {
            (rest, None)
        };
        let (rest, extension) = if optional_bits[9] {
            let (rest, value) = ExtensionData::try_from_uper(rest)?;
            (rest, Some(value))
        } else {
            (rest, None)
        };
        let sequence = Self {
            reference_ia_5,
            reference_num,
            product_owner_num,
            product_owner_ia_5,
            product_id_num,
            product_id_ia_5,
            valid_from_year,
            valid_from_day,
            valid_until_year,
            valid_until_day,
            value,
            type_,
            info_text,
            extension,
        };
        Ok((rest, sequence))
    }
}

/// The validity span of a ticket, in days relative to issue and minutes of
/// the day.
#[derive(Clone, Debug, PartialEq, Eq)]
pub struct ValidityPeriodType {
    pub valid_from_day: Integer,
    pub valid_from_time: Option<Integer>,
    pub valid_from_utc_offset: Option<Integer>,
    pub valid_until_day: Integer,
    pub valid_until_time: Option<Integer>,
    pub valid_until_utc_offset: Option<Integer>,
}

impl ValidityPeriodType {
    #[verifier::rlimit(60)]
    pub fn try_from_uper<'a>(rest: &'a [bool]) -> (r: ParseResult<'a, Self>)
        ensures
            r matches Ok((remaining, _)) ==> is_suffix_of(remaining@, rest@) && remaining@.len()
                < rest@.len(),
            ({
                let b = rest@;
                match r {
                    Ok((remaining, v)) => b.len() >= 6 && ({
                        let b1 = b.skip(6);
                        let f1 = if b[0] {
                            match asn1_uper::spec_decode_constrained_int(b1, -367, 700) {
                                asn1_uper::NumberOutcome::Taken { consumed, value } => (
                                b1.skip(consumed), value, true),
                                _ => (b1, 0int, false),
                            }
                        } else {
                            (b1, 0int, true)
                        };
                        let f2 = if b[1] {
                            match asn1_uper::spec_decode_constrained_int(f1.0, 0, 1439) {
                                asn1_uper::NumberOutcome::Taken { consumed, value } => (
                                f1.0.skip(consumed), value, true),
                                _ => (f1.0, 0int, false),
                            }
                        } else {
                            (f1.0, 0int, true)
                        };
                        let f3 = if b[2] {
                            match asn1_uper::spec_decode_constrained_int(f2.0, -60, 60) {
                                asn1_uper::NumberOutcome::Taken { consumed, value } => (
                                f2.0.skip(consumed), value, true),
                                _ => (f2.0, 0int, false),
                            }
                        } else {
                            (f2.0, 0int, true)
                        };
                        let f4 = if b[3] {
                            match asn1_uper::spec_decode_constrained_int(f3.0, -1, 500) {
                                asn1_uper::NumberOutcome::Taken { consumed, value } => (
                                f3.0.skip(consumed), value, true),
                                _ => (f3.0, 0int, false),
                            }
                        } else {
                            (f3.0, 0int, true)
                        };
                        let f5 = if b[4] {
                            match asn1_uper::spec_decode_constrained_int(f4.0, 0, 1439) {
                                asn1_uper::NumberOutcome::Taken { consumed, value } => (
                                f4.0.skip(consumed), value, true),
                                _ => (f4.0, 0int, false),
                            }
                        } else {
                            (f4.0, 0int, true)
                        };
                        let f6 = if b[5] {
                            match asn1_uper::spec_decode_constrained_int(f5.0, -60, 60) {
                                asn1_uper::NumberOutcome::Taken { consumed, value } => (
                                f5.0.skip(consumed), value, true),
                                _ => (f5.0, 0int, false),
                            }
                        } else {
                            (f5.0, 0int, true)
                        };
                        &&& f1.2
                        &&& f2.2
                        &&& f3.2
                        &&& f4.2
                        &&& f5.2
                        &&& f6.2
                        &&& v.valid_from_day@ == f1.1
                        &&& (v.valid_from_time is Some) == b[1]
                        &&& (b[1] ==> (v.valid_from_time matches Some(x) && x@ == f2.1))
                        &&& (v.valid_from_utc_offset is Some) == b[2]
                        &&& (b[2] ==> (v.valid_from_utc_offset matches Some(x) && x@ == f3.1))
                        &&& v.valid_until_day@ == f4.1
                        &&& (v.valid_until_time is Some) == b[4]
                        &&& (b[4] ==> (v.valid_until_time matches Some(x) && x@ == f5.1))
                        &&& (v.valid_until_utc_offset is Some) == b[5]
                        &&& (b[5] ==> (v.valid_until_utc_offset matches Some(x) && x@ == f6.1))
                        &&& remaining@ == f6.0
                    }),
                    Err(_) => true,
                }
            }),
    {
        let (rest, optional_bits) = asn1_uper::decode_bools(rest, 6)?;
        let (rest, valid_from_day) = if optional_bits[0] {
            decode_constrained_integer_field(rest, -367, 700)?
        } else {
            (rest, Integer::from_short(0))
        };
        let (rest, valid_from_time) = if optional_bits[1] {
            let (rest, value) = decode_constrained_integer_field(rest, 0, 1439)?;
            (rest, Some(value))
        } else {
            (rest, None)
        };
        let (rest, valid_from_utc_offset) = if optional_bits[2] {
            let (rest, value) = decode_constrained_integer_field(rest, -60, 60)?;
            (rest, Some(value))
        } else {
            (rest, None)
        };
        let (rest, valid_until_day) = if optional_bits[3] {
            decode_constrained_integer_field(rest, -1, 500)?
        } else {
            (rest, Integer::from_short(0))
        };
        let (rest, valid_until_time) = if optional_bits[4] {
            let (rest, value) = decode_constrained_integer_field(rest, 0, 1439)?;
            (rest, Some(value))
        } else {
            (rest, None)
        };
        let (rest, valid_until_utc_offset) = if optional_bits[5] {
            let (rest, value) = decode_constrained_integer_field(rest, -60, 60)?;
            (rest, Some(value))
        } else {
            (rest, None)
        };
        let sequence = Self {
            valid_from_day,
            valid_from_time,
            valid_from_utc_offset,
            valid_until_day,
            valid_until_time,
            valid_until_utc_offset,
        };
        Ok((rest, sequence))
    }
}

} // verus!
