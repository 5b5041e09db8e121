//! End-to-end tests of the flyg decoder on document bytes, with real gzip
//! data produced by libflate.

use flyg::loader::decode_flight_recording;
use flyg::loader::decode_flight_recording_config;
use flyg::loader::is_compressed_name;
use flyg::FlygFormatError;

fn minimal_document() -> &'static str {
    "{\n  \"planeInformation\": {\n    \"name\": \"Cessna 172\",\n    \"fuelCapacity\": 56,\n    \"numberOfEngines\": 1,\n    \"fuelWeight\": 6.7,\n    \"unusableFuelQuantity\": 3.8\n  },\n  \"landingSpeed\": 12.5,\n  \"times\": {\n    \"blockOffTime\": \"2020-04-12T10:01:00Z\",\n    \"blockOnTime\": \"2020-04-12T12:30:00Z\",\n    \"landingTime\": \"2020-04-12T12:20:00Z\",\n    \"takeoffTime\": \"2020-04-12T10:10:00Z\"\n  },\n  \"fuelRecords\": [\n    { \"fuelQuantity\": 50.0 },\n    { \"fuelQuantity\": 42.25 }\n  ]\n}\n"
}

fn gzip(content: &[u8]) -> Vec<u8> {
    let mut encoder = libflate::gzip::Encoder::new(Vec::new()).unwrap();
    std::io::Write::write_all(&mut encoder, content).unwrap();
    encoder.finish().into_result().unwrap()
}

fn check_minimal_fields(flight: &flyg::FlygFlight) {
    assert_eq!(flight.plane_information.name, b"Cessna 172".to_vec());
    assert_eq!(flight.plane_information.fuel_capacity, 56);
    assert_eq!(flight.plane_information.number_of_engines, 1);
    assert_eq!(flight.plane_information.fuel_weight.text, b"6.7".to_vec());
    assert_eq!(
        flight.plane_information.unusable_fuel_quantity.text,
        b"3.8".to_vec()
    );
    assert_eq!(flight.landing_speed.text, b"12.5".to_vec());
    assert_eq!(flight.times.block_off_time, b"2020-04-12T10:01:00Z".to_vec());
    assert_eq!(flight.times.block_on_time, b"2020-04-12T12:30:00Z".to_vec());
    assert_eq!(flight.times.landing_time, b"2020-04-12T12:20:00Z".to_vec());
    assert_eq!(flight.times.takeoff_time, b"2020-04-12T10:10:00Z".to_vec());
    assert_eq!(flight.fuel_records.len(), 2);
    assert_eq!(flight.fuel_records[0].fuel_quantity.text, b"50.0".to_vec());
    assert_eq!(flight.fuel_records[1].fuel_quantity.text, b"42.25".to_vec());
}

#[test]
fn direct_valid_document_decodes_with_all_fields() {
    let result = decode_flight_recording(
        b"test_data/uncompressed.flyg",
        minimal_document().as_bytes(),
    );
    let flight = result.expect("a valid document must decode");
    check_minimal_fields(&flight);
}

#[test]
fn compressed_valid_document_round_trips() {
    let compressed = gzip(minimal_document().as_bytes());
    let result = decode_flight_recording(b"test_data/compressed.cflyg", &compressed);
    let flight = result.expect("a valid compressed document must decode");
    check_minimal_fields(&flight);
}

#[test]
fn compressed_base_schema_document_defaults_its_extended_fields() {
    let document = "{\"planeInformation\":{\"name\":\"x\",\"fuelCapacity\":7,\"numberOfEngines\":1},\"landingSpeed\":2.5,\"times\":{\"blockOffTime\":\"t1\",\"blockOnTime\":\"t4\",\"landingTime\":\"t3\",\"takeoffTime\":\"t2\"}}";
    let compressed = gzip(document.as_bytes());
    let flight = decode_flight_recording(b"base.cflyg", &compressed)
        .expect("a base-schema document must decode with defaults");
    assert_eq!(flight.plane_information.fuel_capacity, 7);
    assert_eq!(flight.plane_information.fuel_weight.text, b"0".to_vec());
    assert_eq!(
        flight.plane_information.unusable_fuel_quantity.text,
        b"0".to_vec()
    );
    assert!(flight.fuel_records.is_empty());
}

#[test]
fn reserved_extension_in_any_casing_selects_the_compressed_path() {
    let compressed = gzip(minimal_document().as_bytes());
    for name in [
        b"test_data/compressed.CFLYG".as_slice(),
        b"test_data/compressed.CfLyG".as_slice(),
        b"test_data/compressed.cflyG".as_slice(),
    ] {
        let flight = decode_flight_recording(name, &compressed)
            .expect("casing of the extension must not matter");
        check_minimal_fields(&flight);
    }
}

#[test]
fn reserved_extension_with_invalid_gzip_is_a_decompression_failure() {
    let result = decode_flight_recording(b"corrupt.cflyg", b"this is not gzip at all");
    assert_eq!(result.err(), Some(FlygFormatError::DecompressionFailed));
    // even a valid plain document fails on the compressed path
    let result = decode_flight_recording(b"plain.CFLYG", minimal_document().as_bytes());
    assert_eq!(result.err(), Some(FlygFormatError::DecompressionFailed));
}

#[test]
fn truncated_gzip_stream_is_a_decompression_failure() {
    let compressed = gzip(minimal_document().as_bytes());
    let cut = &compressed[..compressed.len() / 2];
    let result = decode_flight_recording(b"cut.cflyg", cut);
    assert_eq!(result.err(), Some(FlygFormatError::DecompressionFailed));
}

#[test]
fn gzip_content_without_the_reserved_extension_is_not_sniffed() {
    // dispatch is purely syntactic: a compressed file under another
    // extension is read as a plain document and fails format recognition
    let compressed = gzip(minimal_document().as_bytes());
    let result = decode_flight_recording(b"renamed.flyg", &compressed);
    assert_eq!(result.err(), Some(FlygFormatError::FileFormatNotRecognized));
    // a dotless name has no extension, so valid gzip under it goes direct too
    let result = decode_flight_recording(b"cflyg", &compressed);
    assert_eq!(result.err(), Some(FlygFormatError::FileFormatNotRecognized));
}

#[test]
fn invalid_content_is_not_recognized() {
    for content in [
        b"".as_slice(),
        b"   ".as_slice(),
        b"[]".as_slice(),
        b"{}".as_slice(),
        b"{ \"planeInformation\": {} }".as_slice(),
        b"not a document".as_slice(),
    ] {
        let result = decode_flight_recording(b"bad.flyg", content);
        assert_eq!(result.err(), Some(FlygFormatError::FileFormatNotRecognized));
    }
    // a truncated but otherwise valid document
    let document = minimal_document();
    let cut = &document.as_bytes()[..document.len() - 3];
    let result = decode_flight_recording(b"cut.flyg", cut);
    assert_eq!(result.err(), Some(FlygFormatError::FileFormatNotRecognized));
}

#[test]
fn trailing_content_after_the_document_is_not_recognized() {
    let mut content = minimal_document().as_bytes().to_vec();
    content.extend_from_slice(b"extra");
    let result = decode_flight_recording(b"extra.flyg", &content);
    assert_eq!(result.err(), Some(FlygFormatError::FileFormatNotRecognized));
}

#[test]
fn disabled_compression_capability_falls_through_to_direct_decoding() {
    // a reserved-extension name with plain content decodes directly
    let flight = decode_flight_recording_config(
        false,
        b"plain.cflyg",
        minimal_document().as_bytes(),
    )
    .expect("the compressed path must not run when the capability is off");
    check_minimal_fields(&flight);
    // with gzip content it predictably fails format recognition instead
    let compressed = gzip(minimal_document().as_bytes());
    let result = decode_flight_recording_config(false, b"data.cflyg", &compressed);
    assert_eq!(result.err(), Some(FlygFormatError::FileFormatNotRecognized));
    // enabled, it behaves as the default entry point
    let flight = decode_flight_recording_config(true, b"data.cflyg", &compressed)
        .expect("the enabled capability must decompress");
    check_minimal_fields(&flight);
}

#[test]
fn extension_matching_looks_at_the_last_dot_only() {
    assert!(is_compressed_name(b"flight.cflyg"));
    assert!(is_compressed_name(b"flight.CFLYG"));
    assert!(is_compressed_name(b"archive.tar.cflyg"));
    assert!(is_compressed_name(b".cflyg"));
    // a name without a dot has no extension and goes direct
    assert!(!is_compressed_name(b"cflyg"));
    assert!(!is_compressed_name(b"flight.flyg"));
    assert!(!is_compressed_name(b"flight.cflyg.flyg"));
    assert!(!is_compressed_name(b"flight.cflygx"));
    assert!(!is_compressed_name(b"flight."));
    assert!(!is_compressed_name(b""));
}

#[test]
fn error_messages_describe_each_classification() {
    assert_eq!(
        FlygFormatError::CouldNotOpenFile.message(),
        "The supplied file could not be opened"
    );
    assert_eq!(
        FlygFormatError::FileFormatNotRecognized.message(),
        "Content of supplied file is not recognized"
    );
    assert_eq!(
        FlygFormatError::DecompressionFailed.message(),
        "Could not decompress file"
    );
}
