use attributed_message::AddressedAttributedMessage;
use attributed_message::FrameError;
use attributed_message::MessageAttributes;

const TEST_DATA: &str =
    "afrl.cmasi.AirVehicleState$lmcp|afrl.cmasi.AirVehicleState||1|2$LMCPthisisthepayloadhereblabla$sads$";

#[test]
fn test_serialize() {
    let mut msg = AddressedAttributedMessage::default();
    msg.set_address("afrl.cmasi.AirVehicleState");
    msg.set_content_type("lmcp");
    msg.set_descriptor("afrl.cmasi.AirVehicleState");
    msg.set_sender_entity_id("1");
    msg.set_sender_service_id("2");
    msg.set_payload("LMCPthisisthepayloadhereblabla$sads$".as_bytes().to_vec());
    let s1 = msg.serialize();
    let s2 = TEST_DATA.to_string().as_bytes().to_vec();
    println!("s1={}", String::from_utf8(s1.clone()).unwrap());
    println!("s2={}", TEST_DATA);
    assert_eq!(s1, s2);
}

#[test]
fn test_deserialize() {
    let data = TEST_DATA.to_string().as_bytes().to_vec();
    let msg = AddressedAttributedMessage::deserialize(data).unwrap();
    println!("msg = {}", msg.to_text());
    let s1 = msg.serialize();
    let s2 = TEST_DATA.to_string().as_bytes().to_vec();
    println!("s1={}", String::from_utf8(s1.clone()).unwrap());
    println!("s2={}", TEST_DATA);
    assert_eq!(s1, s2);
}

#[test]
fn round_trip_preserves_every_field() {
    let mut msg = AddressedAttributedMessage::default();
    msg.set_address("uxas.roadmonitor");
    msg.set_content_type("json");
    msg.set_descriptor("some.schema");
    msg.set_sender_group("fusion.operator.sensor");
    msg.set_sender_entity_id("12");
    msg.set_sender_service_id("14");
    msg.set_payload(vec![0, 1, 2, 254, 255]);
    let encoded = msg.serialize();
    let decoded = AddressedAttributedMessage::deserialize(encoded.clone()).unwrap();
    assert_eq!(decoded.get_payload(), &[0, 1, 2, 254, 255]);
    assert_eq!(decoded.serialize(), encoded);
}

#[test]
fn attribute_decode_needs_exactly_five_chunks() {
    assert!(MessageAttributes::deserialize(b"").is_none());
    assert!(MessageAttributes::deserialize(b"a").is_none());
    assert!(MessageAttributes::deserialize(b"a|b").is_none());
    assert!(MessageAttributes::deserialize(b"a|b|c").is_none());
    assert!(MessageAttributes::deserialize(b"a|b|c|d").is_none());
    assert!(MessageAttributes::deserialize(b"a|b|c|d|e").is_some());
    assert!(MessageAttributes::deserialize(b"a|b|c|d|e|f").is_none());
    assert!(MessageAttributes::deserialize(b"a|b|c|d|e|f|g").is_none());
}

#[test]
fn attribute_block_round_trips_through_bytes() {
    let mut attrs = MessageAttributes::default();
    attrs.set_content_type("lmcp");
    attrs.set_descriptor("afrl.cmasi.AirVehicleState");
    attrs.set_sender_entity_id("1");
    attrs.set_sender_service_id("2");
    let encoded = attrs.serialize();
    assert_eq!(encoded, b"lmcp|afrl.cmasi.AirVehicleState||1|2".to_vec());
    let decoded = MessageAttributes::deserialize(&encoded).unwrap();
    assert_eq!(decoded.serialize(), encoded);
}

#[test]
fn payload_keeps_embedded_dollar_bytes_verbatim() {
    let data = b"addr$a|b|c|d|e$pay$load$with$dollars$".to_vec();
    let msg = AddressedAttributedMessage::deserialize(data).unwrap();
    assert_eq!(msg.get_payload(), b"pay$load$with$dollars$");
}

#[test]
fn decode_fails_without_two_dollar_delimiters() {
    let r = AddressedAttributedMessage::deserialize(b"no delimiters at all".to_vec());
    assert_eq!(r.unwrap_err(), FrameError::MalformedEnvelope);
    let r = AddressedAttributedMessage::deserialize(b"only$one delimiter".to_vec());
    assert_eq!(r.unwrap_err(), FrameError::MalformedEnvelope);
    let r = AddressedAttributedMessage::deserialize(Vec::new());
    assert_eq!(r.unwrap_err(), FrameError::MalformedEnvelope);
}

#[test]
fn decode_reports_malformed_attribute_section() {
    let r = AddressedAttributedMessage::deserialize(b"addr$a|b|c$payload".to_vec());
    assert_eq!(r.unwrap_err(), FrameError::MalformedAttributes);
    let r = AddressedAttributedMessage::deserialize(b"addr$a|b|c|d|e|f$payload".to_vec());
    assert_eq!(r.unwrap_err(), FrameError::MalformedAttributes);
    let r = AddressedAttributedMessage::deserialize(b"$$".to_vec());
    assert_eq!(r.unwrap_err(), FrameError::MalformedAttributes);
}

#[test]
fn empty_fields_survive_the_round_trip() {
    let mut msg = AddressedAttributedMessage::default();
    msg.set_address("a");
    msg.set_content_type("lmcp");
    msg.set_descriptor("afrl.cmasi.AirVehicleState");
    msg.set_sender_group("");
    msg.set_sender_entity_id("1");
    msg.set_sender_service_id("2");
    let encoded = msg.serialize();
    assert_eq!(encoded, b"a$lmcp|afrl.cmasi.AirVehicleState||1|2$".to_vec());
    let decoded = AddressedAttributedMessage::deserialize(encoded.clone()).unwrap();
    assert_eq!(decoded.get_payload(), b"");
    assert_eq!(decoded.serialize(), encoded);
}

#[test]
fn end_to_end_example_encodes_and_decodes_exactly() {
    let mut msg = AddressedAttributedMessage::default();
    msg.set_address("afrl.cmasi.AirVehicleState");
    msg.set_content_type("lmcp");
    msg.set_descriptor("afrl.cmasi.AirVehicleState");
    msg.set_sender_group("");
    msg.set_sender_entity_id("1");
    msg.set_sender_service_id("2");
    msg.set_payload(b"LMCPthisisthepayloadhereblabla$sads$".to_vec());
    let encoded = msg.serialize();
    assert_eq!(encoded, TEST_DATA.as_bytes().to_vec());
    let decoded = AddressedAttributedMessage::deserialize(encoded).unwrap();
    assert_eq!(decoded.get_payload(), b"LMCPthisisthepayloadhereblabla$sads$");
    assert_eq!(
        decoded.to_text(),
        "afrl.cmasi.AirVehicleState$lmcp|afrl.cmasi.AirVehicleState||1|2"
    );
}

#[test]
fn empty_payload_after_second_delimiter_is_valid() {
    let msg = AddressedAttributedMessage::deserialize(b"addr$a|b|c|d|e$".to_vec()).unwrap();
    assert_eq!(msg.get_payload(), b"");
}

#[test]
fn setters_overwrite_previous_values() {
    let mut attrs = MessageAttributes::default();
    attrs.set_content_type("xml");
    attrs.set_content_type("lmcp");
    attrs.set_sender_group("fusion");
    attrs.set_sender_group("uxas");
    assert_eq!(attrs.serialize(), b"lmcp||uxas||".to_vec());
}

#[test]
fn text_rendering_is_lossy_on_invalid_utf8() {
    let attrs = MessageAttributes::deserialize(&[0xff, b'|', b'b', b'|', b'|', b'|', b'2'])
        .unwrap();
    assert_eq!(attrs.to_text(), "\u{fffd}|b|||2");
}

#[test]
fn attribute_text_rendering_joins_fields_with_pipes() {
    let mut attrs = MessageAttributes::default();
    attrs.set_content_type("lmcp");
    attrs.set_descriptor("d");
    attrs.set_sender_entity_id("1");
    attrs.set_sender_service_id("2");
    assert_eq!(attrs.to_text(), "lmcp|d||1|2");
}
