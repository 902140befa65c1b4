use uic_uper::asn1_uper::{
    encode_bool, encode_integer, encode_ia5_string, Integer, WholeNumberConstraint, DecodeFailure,
    ErrorKind,
};
use uic_uper::uflex_3::{
    ConfirmationType, CodeTableType, TravelClassType, TimeRangeType, DeltaCoordinates,
    BerthDetailData, BerthTypeType, CompartmentGenderType, RegisteredLuggageType,
    LuggageRestrictionType, VatDetailType, GenderType, RouteSectionType, TicketLinkType,
    CardReferenceType, TicketType, LinkMode, VoucherData, ValidityPeriodType,
};

fn constrained(min: i128, max: i128) -> WholeNumberConstraint {
    WholeNumberConstraint::Constrained {
        min: Integer::from_short(min),
        max: Integer::from_short(max),
    }
}

#[test]
fn test_confirmation_type_decode() {
    // extension marker clear, index 1 of [0, 2]
    let bits = [false, false, true, true];
    let (rest, value) = ConfirmationType::try_from_uper(&bits).unwrap();
    assert_eq!(value, ConfirmationType::TravelerDelayConfirmation);
    assert_eq!(rest, &[true]);
}

#[test]
fn test_extension_marker_rejected() {
    let bits = [true, false, true];
    match ConfirmationType::try_from_uper(&bits) {
        Err(DecodeFailure::Error(e)) => {
            assert!(matches!(e.kind, ErrorKind::UnsupportedExtension { .. }));
        },
        other => panic!("expected an unsupported-extension error, got {:?}", other),
    }
}

#[test]
fn test_enumerated_out_of_range() {
    // index 3 of [0, 2] names no alternative
    let bits = [false, true, true];
    match ConfirmationType::try_from_uper(&bits) {
        Err(DecodeFailure::Error(e)) => match e.kind {
            ErrorKind::InvalidEnumerated { value, .. } => {
                assert_eq!(value, Integer::from_short(3));
            },
            other => panic!("expected an invalid-enumerated error, got {:?}", other),
        },
        other => panic!("expected a decoding error, got {:?}", other),
    }
}

#[test]
fn test_code_table_type_decode() {
    // no extension marker on this type: three bits of index
    let bits = [false, true, false];
    let (rest, value) = CodeTableType::try_from_uper(&bits).unwrap();
    assert_eq!(value, CodeTableType::StationEra);
    assert_eq!(rest.len(), 0);
}

#[test]
fn test_travel_class_type_decode() {
    let mut bits: Vec<bool> = Vec::new();
    encode_bool(&mut bits, false);
    encode_integer(&mut bits, &constrained(0, 11), &Integer::from_short(6)).unwrap();
    let (rest, value) = TravelClassType::try_from_uper(&bits).unwrap();
    assert_eq!(value, TravelClassType::Business);
    assert_eq!(rest.len(), 0);

    let mut bits: Vec<bool> = Vec::new();
    encode_bool(&mut bits, false);
    encode_integer(&mut bits, &constrained(0, 3), &Integer::from_short(2)).unwrap();
    let (_, gender) = GenderType::try_from_uper(&bits).unwrap();
    assert_eq!(gender, GenderType::Male);
}

#[test]
fn test_time_range_decode() {
    let mut bits: Vec<bool> = Vec::new();
    encode_integer(&mut bits, &constrained(0, 1439), &Integer::from_short(480)).unwrap();
    encode_integer(&mut bits, &constrained(0, 1439), &Integer::from_short(1020)).unwrap();
    let (rest, value) = TimeRangeType::try_from_uper(&bits).unwrap();
    assert_eq!(value.from_time, Integer::from_short(480));
    assert_eq!(value.until_time, Integer::from_short(1020));
    assert_eq!(rest.len(), 0);
}

#[test]
fn test_delta_coordinates_decode() {
    let mut bits: Vec<bool> = Vec::new();
    encode_integer(&mut bits, &WholeNumberConstraint::Unconstrained, &Integer::from_short(-40))
        .unwrap();
    encode_integer(&mut bits, &WholeNumberConstraint::Unconstrained, &Integer::from_short(1000))
        .unwrap();
    let (rest, value) = DeltaCoordinates::try_from_uper(&bits).unwrap();
    assert_eq!(value.longitude, Integer::from_short(-40));
    assert_eq!(value.latitude, Integer::from_short(1000));
    assert_eq!(rest.len(), 0);
}

#[test]
fn test_berth_detail_decode() {
    // extension marker, one option bit (gender absent), berth type T2,
    // two berths
    let mut bits: Vec<bool> = Vec::new();
    encode_bool(&mut bits, false);
    encode_bool(&mut bits, false);
    encode_integer(&mut bits, &constrained(0, 5), &Integer::from_short(3)).unwrap();
    encode_integer(&mut bits, &constrained(1, 999), &Integer::from_short(2)).unwrap();
    let (rest, value) = BerthDetailData::try_from_uper(&bits).unwrap();
    assert_eq!(value.berth_type, BerthTypeType::T2);
    assert_eq!(value.number_of_berths, Integer::from_short(2));
    assert_eq!(value.gender, CompartmentGenderType::Family);
    assert_eq!(rest.len(), 0);
}

#[test]
fn test_luggage_restriction_decode() {
    // only the registered-luggage list is present; the two counts take
    // their defaults of three and one
    let mut bits: Vec<bool> = Vec::new();
    encode_bool(&mut bits, false);
    bits.extend([false, false, true]);
    // one list member
    bits.extend([false, false, false, false, false, false, false, true]);
    // the member: extension marker and three absent options
    encode_bool(&mut bits, false);
    bits.extend([false, false, false]);
    let (rest, value) = LuggageRestrictionType::try_from_uper(&bits).unwrap();
    assert_eq!(value.max_hand_luggage_pieces, Integer::from_short(3));
    assert_eq!(value.max_non_hand_luggage_pieces, Integer::from_short(1));
    assert_eq!(
        value.registered_luggage,
        vec![RegisteredLuggageType { registration_id: None, max_weight: None, max_size: None }]
    );
    assert_eq!(rest.len(), 0);
}

#[test]
fn test_vat_detail_decode() {
    // both options present: country 250, 20 percent, an amount, an id
    let mut bits: Vec<bool> = Vec::new();
    bits.extend([true, true]);
    encode_integer(&mut bits, &constrained(1, 999), &Integer::from_short(250)).unwrap();
    encode_integer(&mut bits, &constrained(0, 999), &Integer::from_short(20)).unwrap();
    encode_integer(&mut bits, &WholeNumberConstraint::Unconstrained, &Integer::from_short(1250))
        .unwrap();
    encode_ia5_string(&mut bits, &WholeNumberConstraint::Unconstrained, "FR123").unwrap();
    let (rest, value) = VatDetailType::try_from_uper(&bits).unwrap();
    assert_eq!(value.country, Integer::from_short(250));
    assert_eq!(value.percentage, Integer::from_short(20));
    assert_eq!(value.amount, Some(Integer::from_short(1250)));
    assert_eq!(value.vat_id, Some("FR123".to_string()));
    assert_eq!(rest.len(), 0);
}

#[test]
fn test_route_section_decode() {
    // only the code table present, chosen explicitly
    let mut bits: Vec<bool> = Vec::new();
    bits.extend([true, false, false, false, false, false, false]);
    encode_integer(&mut bits, &constrained(0, 4), &Integer::from_short(2)).unwrap();
    let (rest, value) = RouteSectionType::try_from_uper(&bits).unwrap();
    assert_eq!(value.station_code_table, CodeTableType::StationEra);
    assert_eq!(value.from_station_num, None);
    assert_eq!(value.to_station_name_utf_8, None);
    assert_eq!(rest.len(), 0);
}

#[test]
fn test_ticket_link_defaults() {
    // every optional field absent: the two enumerations take their defaults
    let mut bits: Vec<bool> = Vec::new();
    encode_bool(&mut bits, false);
    bits.extend([false; 8]);
    let (rest, value) = TicketLinkType::try_from_uper(&bits).unwrap();
    assert_eq!(value.reference_ia_5, None);
    assert_eq!(value.ticket_type, TicketType::OpenTicket);
    assert_eq!(value.link_mode, LinkMode::IssuedTogether);
    assert_eq!(rest.len(), 0);
}

#[test]
fn test_card_reference_decode() {
    // the issuer number and the card name are present
    let mut bits: Vec<bool> = Vec::new();
    encode_bool(&mut bits, false);
    bits.extend([true, false, false, false, true, false, false, false, false, false]);
    encode_integer(&mut bits, &constrained(1, 32000), &Integer::from_short(4711)).unwrap();
    uic_uper::asn1_uper::encode_octet_string(
        &mut bits,
        &WholeNumberConstraint::Unconstrained,
        b"BahnCard",
    )
    .unwrap();
    let (rest, value) = CardReferenceType::try_from_uper(&bits).unwrap();
    assert_eq!(value.card_issuer_num, Some(Integer::from_short(4711)));
    assert_eq!(value.card_name, Some("BahnCard".to_string()));
    assert_eq!(value.card_id_num, None);
    assert_eq!(value.trailing_card_id_ia_5, None);
    assert_eq!(rest.len(), 0);
}

#[test]
fn test_voucher_decode() {
    // no optional fields: the four validity fields and a zero default value
    let mut bits: Vec<bool> = Vec::new();
    encode_bool(&mut bits, false);
    bits.extend([false; 10]);
    encode_integer(&mut bits, &constrained(2016, 2269), &Integer::from_short(2020)).unwrap();
    encode_integer(&mut bits, &constrained(0, 500), &Integer::from_short(100)).unwrap();
    encode_integer(&mut bits, &constrained(2016, 2269), &Integer::from_short(2021)).unwrap();
    encode_integer(&mut bits, &constrained(0, 500), &Integer::from_short(200)).unwrap();
    let (rest, value) = VoucherData::try_from_uper(&bits).unwrap();
    assert_eq!(value.valid_from_year, Integer::from_short(2020));
    assert_eq!(value.valid_from_day, Integer::from_short(100));
    assert_eq!(value.valid_until_year, Integer::from_short(2021));
    assert_eq!(value.valid_until_day, Integer::from_short(200));
    assert_eq!(value.value, Integer::from_short(0));
    assert_eq!(value.reference_ia_5, None);
    assert_eq!(value.extension, None);
    assert_eq!(rest.len(), 0);
}

#[test]
fn test_validity_period_decode() {
    // the from-day and until-time are present, the rest take defaults
    let mut bits: Vec<bool> = Vec::new();
    bits.extend([true, false, false, false, true, false]);
    encode_integer(&mut bits, &constrained(-367, 700), &Integer::from_short(-5)).unwrap();
    encode_integer(&mut bits, &constrained(0, 1439), &Integer::from_short(720)).unwrap();
    let (rest, value) = ValidityPeriodType::try_from_uper(&bits).unwrap();
    assert_eq!(value.valid_from_day, Integer::from_short(-5));
    assert_eq!(value.valid_from_time, None);
    assert_eq!(value.valid_until_day, Integer::from_short(0));
    assert_eq!(value.valid_until_time, Some(Integer::from_short(720)));
    assert_eq!(rest.len(), 0);
}
