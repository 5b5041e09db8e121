//! Tests of the document grammar itself: member order, numeric ranges,
//! string escapes, whitespace, number tokens.

use flyg::json::parse_flyg_document;
use flyg::FlygFormatError;

fn document_with(
    name: &str,
    capacity: &str,
    engines: &str,
    weight: &str,
    unusable: &str,
    speed: &str,
    records: &str,
) -> String {
    format!(
        "{{\"planeInformation\":{{\"name\":{},\"fuelCapacity\":{},\"numberOfEngines\":{},\"fuelWeight\":{},\"unusableFuelQuantity\":{}}},\"landingSpeed\":{},\"times\":{{\"blockOffTime\":\"t1\",\"blockOnTime\":\"t4\",\"landingTime\":\"t3\",\"takeoffTime\":\"t2\"}},\"fuelRecords\":{}}}",
        name, capacity, engines, weight, unusable, speed, records
    )
}

fn default_document() -> String {
    document_with("\"x\"", "100", "2", "6.7", "0.5", "60", "[]")
}

#[test]
fn a_compact_document_with_no_spaces_decodes() {
    let flight = parse_flyg_document(default_document().as_bytes()).unwrap();
    assert_eq!(flight.plane_information.name, b"x".to_vec());
    assert_eq!(flight.plane_information.fuel_capacity, 100);
    assert_eq!(flight.plane_information.number_of_engines, 2);
    assert_eq!(flight.landing_speed.text, b"60".to_vec());
    assert_eq!(flight.times.block_off_time, b"t1".to_vec());
    assert_eq!(flight.times.takeoff_time, b"t2".to_vec());
    assert_eq!(flight.times.landing_time, b"t3".to_vec());
    assert_eq!(flight.times.block_on_time, b"t4".to_vec());
    assert!(flight.fuel_records.is_empty());
}

#[test]
fn whitespace_between_tokens_is_insignificant() {
    let spaced = document_with("\"x\"", "100", "2", "6.7", "0.5", "60", "[]")
        .replace(":", " :\t")
        .replace(",", " ,\r\n");
    let flight = parse_flyg_document(spaced.as_bytes()).unwrap();
    assert_eq!(flight.plane_information.fuel_capacity, 100);
}

#[test]
fn string_escapes_are_unescaped() {
    let document = document_with(
        "\"a \\\"quoted\\\" name\\n\\twith\\\\all \\/ \\b \\f \\r escapes\"",
        "1",
        "1",
        "1",
        "0",
        "1",
        "[]",
    );
    let flight = parse_flyg_document(document.as_bytes()).unwrap();
    assert_eq!(
        flight.plane_information.name,
        b"a \"quoted\" name\n\twith\\all / \x08 \x0c \r escapes".to_vec()
    );
}

#[test]
fn unicode_escapes_decode_to_utf_8() {
    let document = document_with(
        "\"\\u0041 \\u00e9 \\u20ac \\ud83d\\ude00\"",
        "1",
        "1",
        "1",
        "0",
        "1",
        "[]",
    );
    let flight = parse_flyg_document(document.as_bytes()).unwrap();
    assert_eq!(
        flight.plane_information.name,
        "A \u{e9} \u{20ac} \u{1f600}".as_bytes().to_vec()
    );
}

#[test]
fn lone_surrogate_escapes_are_not_recognized() {
    for bad in ["\"\\ud83d\"", "\"\\ude00\"", "\"\\ud83d\\u0041\"", "\"\\ud83dx\""] {
        let document = document_with(bad, "1", "1", "1", "0", "1", "[]");
        assert_eq!(
            parse_flyg_document(document.as_bytes()).err(),
            Some(FlygFormatError::FileFormatNotRecognized),
            "name {} must be rejected",
            bad
        );
    }
}

#[test]
fn unknown_escapes_are_not_recognized() {
    let document = document_with("\"bad \\q escape\"", "1", "1", "1", "0", "1", "[]");
    assert_eq!(
        parse_flyg_document(document.as_bytes()).err(),
        Some(FlygFormatError::FileFormatNotRecognized)
    );
}

#[test]
fn integer_fields_accept_their_full_range() {
    let document = document_with("\"x\"", "4294967295", "255", "1", "0", "1", "[]");
    let flight = parse_flyg_document(document.as_bytes()).unwrap();
    assert_eq!(flight.plane_information.fuel_capacity, u32::MAX);
    assert_eq!(flight.plane_information.number_of_engines, u8::MAX);
}

#[test]
fn integer_fields_reject_out_of_range_values() {
    let too_large_capacity = document_with("\"x\"", "4294967296", "1", "1", "0", "1", "[]");
    assert_eq!(
        parse_flyg_document(too_large_capacity.as_bytes()).err(),
        Some(FlygFormatError::FileFormatNotRecognized)
    );
    let too_many_engines = document_with("\"x\"", "1", "256", "1", "0", "1", "[]");
    assert_eq!(
        parse_flyg_document(too_many_engines.as_bytes()).err(),
        Some(FlygFormatError::FileFormatNotRecognized)
    );
    let negative_capacity = document_with("\"x\"", "-1", "1", "1", "0", "1", "[]");
    assert_eq!(
        parse_flyg_document(negative_capacity.as_bytes()).err(),
        Some(FlygFormatError::FileFormatNotRecognized)
    );
    let fractional_capacity = document_with("\"x\"", "12.5", "1", "1", "0", "1", "[]");
    assert_eq!(
        parse_flyg_document(fractional_capacity.as_bytes()).err(),
        Some(FlygFormatError::FileFormatNotRecognized)
    );
}

#[test]
fn decimal_fields_keep_their_token_verbatim() {
    let document = document_with("\"x\"", "1", "1", "-6.70", "3e-2", "1.25E+10", "[]");
    let flight = parse_flyg_document(document.as_bytes()).unwrap();
    assert_eq!(flight.plane_information.fuel_weight.text, b"-6.70".to_vec());
    assert_eq!(
        flight.plane_information.unusable_fuel_quantity.text,
        b"3e-2".to_vec()
    );
    assert_eq!(flight.landing_speed.text, b"1.25E+10".to_vec());
}

#[test]
fn malformed_number_tokens_are_not_recognized() {
    for bad in ["1.", ".5", "1e", "1e+", "--1", "+1", "1.2.3", "01", "-01", "012.5"] {
        let document = document_with("\"x\"", "1", "1", bad, "0", "1", "[]");
        assert_eq!(
            parse_flyg_document(document.as_bytes()).err(),
            Some(FlygFormatError::FileFormatNotRecognized),
            "token {} must be rejected",
            bad
        );
    }
}

#[test]
fn fuel_records_keep_their_sampling_order() {
    let records = "[{\"fuelQuantity\":50.0},{\"fuelQuantity\":45.5},{\"fuelQuantity\":41}]";
    let document = document_with("\"x\"", "1", "1", "1", "0", "1", records);
    let flight = parse_flyg_document(document.as_bytes()).unwrap();
    let quantities: Vec<&[u8]> = flight
        .fuel_records
        .iter()
        .map(|r| r.fuel_quantity.text.as_slice())
        .collect();
    assert_eq!(
        quantities,
        vec![b"50.0".as_slice(), b"45.5".as_slice(), b"41".as_slice()]
    );
}

#[test]
fn leading_zeros_are_not_recognized() {
    for bad in ["056", "001", "00"] {
        let document = document_with("\"x\"", bad, "1", "1", "0", "1", "[]");
        assert_eq!(
            parse_flyg_document(document.as_bytes()).err(),
            Some(FlygFormatError::FileFormatNotRecognized),
            "integer {} must be rejected",
            bad
        );
    }
    let zero_capacity = document_with("\"x\"", "0", "1", "1", "0", "1", "[]");
    let flight = parse_flyg_document(zero_capacity.as_bytes()).unwrap();
    assert_eq!(flight.plane_information.fuel_capacity, 0);
}

#[test]
fn very_long_out_of_range_integers_are_not_recognized() {
    let document = document_with("\"x\"", "99999999999999999999999999", "1", "1", "0", "1", "[]");
    assert_eq!(
        parse_flyg_document(document.as_bytes()).err(),
        Some(FlygFormatError::FileFormatNotRecognized)
    );
}

#[test]
fn a_missing_required_member_is_not_recognized() {
    // landingSpeed left out
    let document = "{\"planeInformation\":{\"name\":\"x\",\"fuelCapacity\":1,\"numberOfEngines\":1,\"fuelWeight\":1,\"unusableFuelQuantity\":0},\"times\":{\"blockOffTime\":\"t1\",\"blockOnTime\":\"t4\",\"landingTime\":\"t3\",\"takeoffTime\":\"t2\"},\"fuelRecords\":[]}";
    assert_eq!(
        parse_flyg_document(document.as_bytes()).err(),
        Some(FlygFormatError::FileFormatNotRecognized)
    );
    // takeoffTime left out
    let document = "{\"planeInformation\":{\"name\":\"x\",\"fuelCapacity\":1,\"numberOfEngines\":1},\"landingSpeed\":1,\"times\":{\"blockOffTime\":\"t1\",\"blockOnTime\":\"t4\",\"landingTime\":\"t3\"},\"fuelRecords\":[]}";
    assert_eq!(
        parse_flyg_document(document.as_bytes()).err(),
        Some(FlygFormatError::FileFormatNotRecognized)
    );
}

#[test]
fn absent_extended_members_take_their_schema_defaults() {
    // a base-schema document: no fuelWeight, no unusableFuelQuantity, no
    // fuelRecords
    let document = "{\"planeInformation\":{\"name\":\"x\",\"fuelCapacity\":9,\"numberOfEngines\":2},\"landingSpeed\":1.5,\"times\":{\"blockOffTime\":\"t1\",\"blockOnTime\":\"t4\",\"landingTime\":\"t3\",\"takeoffTime\":\"t2\"}}";
    let flight = parse_flyg_document(document.as_bytes()).unwrap();
    assert_eq!(flight.plane_information.fuel_capacity, 9);
    assert_eq!(flight.plane_information.fuel_weight.text, b"0".to_vec());
    assert_eq!(
        flight.plane_information.unusable_fuel_quantity.text,
        b"0".to_vec()
    );
    assert!(flight.fuel_records.is_empty());
}

#[test]
fn each_extended_plane_member_defaults_on_its_own() {
    // fuelWeight present, unusableFuelQuantity absent
    let document = "{\"planeInformation\":{\"name\":\"x\",\"fuelCapacity\":1,\"numberOfEngines\":1,\"fuelWeight\":6.7},\"landingSpeed\":1,\"times\":{\"blockOffTime\":\"t1\",\"blockOnTime\":\"t4\",\"landingTime\":\"t3\",\"takeoffTime\":\"t2\"},\"fuelRecords\":[]}";
    let flight = parse_flyg_document(document.as_bytes()).unwrap();
    assert_eq!(flight.plane_information.fuel_weight.text, b"6.7".to_vec());
    assert_eq!(
        flight.plane_information.unusable_fuel_quantity.text,
        b"0".to_vec()
    );
    // unusableFuelQuantity present, fuelWeight absent
    let document = "{\"planeInformation\":{\"name\":\"x\",\"fuelCapacity\":1,\"numberOfEngines\":1,\"unusableFuelQuantity\":3.8},\"landingSpeed\":1,\"times\":{\"blockOffTime\":\"t1\",\"blockOnTime\":\"t4\",\"landingTime\":\"t3\",\"takeoffTime\":\"t2\"},\"fuelRecords\":[]}";
    let flight = parse_flyg_document(document.as_bytes()).unwrap();
    assert_eq!(flight.plane_information.fuel_weight.text, b"0".to_vec());
    assert_eq!(
        flight.plane_information.unusable_fuel_quantity.text,
        b"3.8".to_vec()
    );
}

#[test]
fn members_decode_in_any_order() {
    let document = "{\"landingSpeed\":1.5,\"fuelRecords\":[{\"fuelQuantity\":9}],\"times\":{\"takeoffTime\":\"t2\",\"blockOnTime\":\"t4\",\"blockOffTime\":\"t1\",\"landingTime\":\"t3\"},\"planeInformation\":{\"unusableFuelQuantity\":0.5,\"numberOfEngines\":1,\"name\":\"x\",\"fuelCapacity\":7,\"fuelWeight\":6.7}}";
    let flight = parse_flyg_document(document.as_bytes()).unwrap();
    assert_eq!(flight.landing_speed.text, b"1.5".to_vec());
    assert_eq!(flight.plane_information.name, b"x".to_vec());
    assert_eq!(flight.plane_information.fuel_capacity, 7);
    assert_eq!(flight.plane_information.fuel_weight.text, b"6.7".to_vec());
    assert_eq!(
        flight.plane_information.unusable_fuel_quantity.text,
        b"0.5".to_vec()
    );
    assert_eq!(flight.times.block_off_time, b"t1".to_vec());
    assert_eq!(flight.times.takeoff_time, b"t2".to_vec());
    assert_eq!(flight.times.landing_time, b"t3".to_vec());
    assert_eq!(flight.times.block_on_time, b"t4".to_vec());
    assert_eq!(flight.fuel_records.len(), 1);
    assert_eq!(flight.fuel_records[0].fuel_quantity.text, b"9".to_vec());
}

#[test]
fn unknown_members_are_ignored() {
    let document = "{\"formatVersion\":2,\"planeInformation\":{\"name\":\"x\",\"registration\":\"D-ABCD\",\"fuelCapacity\":1,\"numberOfEngines\":1},\"landingSpeed\":1,\"note\":[null,true,{\"nested\":[1,\"two\",false]}],\"times\":{\"blockOffTime\":\"t1\",\"blockOnTime\":\"t4\",\"landingTime\":\"t3\",\"takeoffTime\":\"t2\",\"gateChange\":null},\"fuelRecords\":[{\"fuelQuantity\":5,\"sampleSource\":\"tank\"}]}";
    let flight = parse_flyg_document(document.as_bytes()).unwrap();
    assert_eq!(flight.plane_information.name, b"x".to_vec());
    assert_eq!(flight.fuel_records.len(), 1);
    assert_eq!(flight.fuel_records[0].fuel_quantity.text, b"5".to_vec());
}

#[test]
fn duplicate_members_are_not_recognized() {
    let document = "{\"planeInformation\":{\"name\":\"x\",\"name\":\"y\",\"fuelCapacity\":1,\"numberOfEngines\":1},\"landingSpeed\":1,\"times\":{\"blockOffTime\":\"t1\",\"blockOnTime\":\"t4\",\"landingTime\":\"t3\",\"takeoffTime\":\"t2\"},\"fuelRecords\":[]}";
    assert_eq!(
        parse_flyg_document(document.as_bytes()).err(),
        Some(FlygFormatError::FileFormatNotRecognized)
    );
}

#[test]
fn malformed_unknown_member_values_are_not_recognized() {
    // an ignored member's value must still be well-formed
    let document = "{\"extra\":[1,,2],\"planeInformation\":{\"name\":\"x\",\"fuelCapacity\":1,\"numberOfEngines\":1},\"landingSpeed\":1,\"times\":{\"blockOffTime\":\"t1\",\"blockOnTime\":\"t4\",\"landingTime\":\"t3\",\"takeoffTime\":\"t2\"}}";
    assert_eq!(
        parse_flyg_document(document.as_bytes()).err(),
        Some(FlygFormatError::FileFormatNotRecognized)
    );
}

#[test]
fn unescaped_control_bytes_in_strings_are_not_recognized() {
    let document = document_with("\"line\nbreak\"", "1", "1", "1", "0", "1", "[]");
    assert_eq!(
        parse_flyg_document(document.as_bytes()).err(),
        Some(FlygFormatError::FileFormatNotRecognized)
    );
}

#[test]
fn invalid_utf_8_in_strings_is_not_recognized() {
    // a lone continuation byte, a truncated two-byte sequence, an overlong
    // encoding of '/', a surrogate encoding, and a value past U+10FFFF
    for bad in [
        vec![0x80u8],
        vec![0xc3u8],
        vec![0xc0u8, 0xafu8],
        vec![0xedu8, 0xa0u8, 0x80u8],
        vec![0xf5u8, 0x80u8, 0x80u8, 0x80u8],
    ] {
        let mut name = b"\"".to_vec();
        name.extend_from_slice(&bad);
        name.extend_from_slice(b"\"");
        let mut document = b"{\"planeInformation\":{\"name\":".to_vec();
        document.extend_from_slice(&name);
        document.extend_from_slice(b",\"fuelCapacity\":1,\"numberOfEngines\":1,\"fuelWeight\":1,\"unusableFuelQuantity\":0},\"landingSpeed\":1,\"times\":{\"blockOffTime\":\"t1\",\"blockOnTime\":\"t4\",\"landingTime\":\"t3\",\"takeoffTime\":\"t2\"},\"fuelRecords\":[]}");
        assert_eq!(
            parse_flyg_document(&document).err(),
            Some(FlygFormatError::FileFormatNotRecognized),
            "bytes {:?} must be rejected",
            bad
        );
    }
}

#[test]
fn non_ascii_string_content_is_kept_byte_for_byte() {
    let document = document_with("\"Flugzeug \u{00e4}\u{00f6}\u{00fc}\"", "1", "1", "1", "0", "1", "[]");
    let flight = parse_flyg_document(document.as_bytes()).unwrap();
    assert_eq!(
        flight.plane_information.name,
        "Flugzeug \u{00e4}\u{00f6}\u{00fc}".as_bytes().to_vec()
    );
}
