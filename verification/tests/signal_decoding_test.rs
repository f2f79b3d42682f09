use can_receiver::dbc::{DbcHandler, DecodedSignal};
use can_receiver::frame::{id_to_u32, CanFrame, CanId};
use can_receiver::signal::{decode_signal_value, extract_signal_value, ByteOrder, ValueType};
use std::collections::HashMap;

fn scaled(raw: i128, factor: f64, offset: f64) -> f64 {
    raw as f64 * factor + offset
}

fn value(s: &DecodedSignal) -> f64 {
    scaled(s.raw, f64::from_bits(s.factor_bits), f64::from_bits(s.offset_bits))
}

fn unit(handler: &DbcHandler, s: &DecodedSignal) -> String {
    handler.resolve_unit(s, value(s).round() as u32)
}

fn handler_with(dbc_content: &str, error_map: Option<HashMap<u32, String>>) -> DbcHandler {
    match DbcHandler::from_dbc_text(dbc_content, error_map) {
        Ok(h) => h,
        Err(e) => panic!("DBC refused: {:?}", e),
    }
}

fn frame_100(data: &[u8]) -> CanFrame {
    CanFrame::new(CanId::standard(100).unwrap(), data).unwrap()
}

const MINIMAL_DBC: &str = r#"
VERSION ""

NS_ :

BS_:

BO_ 100 TestMessage: 8 Vector__XXX
"#;

#[test]
fn dbc_handler_test_decode_signal_value_zero_size() {
    let data = [0x12, 0x34, 0x56, 0x78];
    let result = decode_signal_value(0, 0, ByteOrder::LittleEndian, ValueType::Unsigned, &data);
    assert!(result.is_err());
    assert!(result.unwrap_err().message().contains("Invalid signal size: 0"));
}

#[test]
fn dbc_handler_test_decode_signal_value_size_exceeds_64() {
    let data = [0x12, 0x34, 0x56, 0x78];
    let result = decode_signal_value(0, 65, ByteOrder::LittleEndian, ValueType::Unsigned, &data);
    assert!(result.is_err());
    assert!(result.unwrap_err().message().contains("Invalid signal size: 65"));
}

#[test]
fn dbc_handler_test_extract_signal_value_little_endian_insufficient_data() {
    let data = [0x12, 0x34];
    let result = extract_signal_value(&data, 8, 24, ByteOrder::LittleEndian);
    assert!(result.is_err());
    assert!(result.unwrap_err().message().contains("Not enough data to decode little-endian signal"));
}

#[test]
fn dbc_handler_test_extract_signal_value_big_endian_insufficient_data() {
    let data = [0x12, 0x34];
    let result = extract_signal_value(&data, 7, 24, ByteOrder::BigEndian);
    assert!(result.is_err());
    assert!(result.unwrap_err().message().contains("Not enough data to decode big-endian signal"));
}

#[test]
fn dbc_handler_test_decode_frame_data_exceeds_8_bytes() {
    let result = CanFrame::new(
        CanId::standard(100).unwrap(),
        &[0x01, 0x02, 0x03, 0x04, 0x05, 0x06, 0x07, 0x08, 0x09],
    );
    assert!(result.is_none());
}

#[test]
fn dbc_handler_test_decode_no_message_definition_found() {
    let handler = handler_with(MINIMAL_DBC, None);
    let frame = CanFrame::new(CanId::standard(200).unwrap(), &[0x01, 0x02, 0x03, 0x04]).unwrap();
    let result = handler.decode(&frame);
    assert!(result.is_err());
    assert!(result.unwrap_err().message().contains("No message definition found for frame ID"));
}

#[test]
fn dbc_handler_test_decode_signal_value_signed_positive() {
    let data = [0b00001111];
    let result = decode_signal_value(0, 8, ByteOrder::LittleEndian, ValueType::Signed, &data);
    assert!(result.is_ok());
    assert_eq!(scaled(result.unwrap(), 1.0, 0.0), 15.0);
}

#[test]
fn dbc_handler_test_decode_signal_value_signed_negative() {
    let data = [0b11111111];
    let result = decode_signal_value(0, 8, ByteOrder::LittleEndian, ValueType::Signed, &data);
    assert!(result.is_ok());
    assert_eq!(scaled(result.unwrap(), 1.0, 0.0), -1.0);
}

#[test]
fn dbc_handler_test_decode_signal_value_unsigned() {
    let data = [0xFF];
    let result = decode_signal_value(0, 8, ByteOrder::LittleEndian, ValueType::Unsigned, &data);
    assert!(result.is_ok());
    assert_eq!(scaled(result.unwrap(), 1.0, 0.0), 255.0);
}

#[test]
fn dbc_handler_test_extract_signal_value_little_endian_basic() {
    let data = [0x12, 0x34, 0x56, 0x78];
    let result = extract_signal_value(&data, 0, 8, ByteOrder::LittleEndian);
    assert!(result.is_ok());
    assert_eq!(result.unwrap(), 0x12);
}

#[test]
fn dbc_handler_test_extract_signal_value_big_endian_basic() {
    let data = [0x12, 0x34, 0x56, 0x78];
    let result = extract_signal_value(&data, 7, 8, ByteOrder::BigEndian);
    assert!(result.is_ok());
    assert_eq!(result.unwrap(), 0x12);
}

#[test]
fn dbc_handler_test_decode_with_valid_signal() {
    let handler = handler_with(
        r#"
VERSION ""

NS_ :

BS_:

BO_ 100 TestMessage: 8 Vector__XXX
 SG_ TestSignal : 0|8@1+ (1,0) [0|255] "" Vector__XXX
"#,
        None,
    );
    let frame = frame_100(&[0x42, 0x00, 0x00, 0x00, 0x00, 0x00, 0x00, 0x00]);
    let result = handler.decode(&frame);
    assert!(result.is_ok());
    let decoded = result.unwrap();
    assert_eq!(decoded.name, "TestMessage");
    assert_eq!(decoded.signals.len(), 1);
    assert_eq!(decoded.signals[0].name, "TestSignal");
    assert_eq!(value(&decoded.signals[0]), 66.0);
}

#[test]
fn dbc_handler_test_extract_signal_value_little_endian_multi_byte() {
    let data = [0x34, 0x12];
    let result = extract_signal_value(&data, 0, 16, ByteOrder::LittleEndian);
    assert!(result.is_ok());
    assert_eq!(result.unwrap(), 0x1234);
}

#[test]
fn dbc_handler_test_extract_signal_value_little_endian_partial_byte() {
    let data = [0b11110000];
    let result = extract_signal_value(&data, 4, 4, ByteOrder::LittleEndian);
    assert!(result.is_ok());
    assert_eq!(result.unwrap(), 0b1111);
}

#[test]
fn dbc_handler_test_decode_signal_value_64_bit_signed() {
    let data = [0xFF, 0xFF, 0xFF, 0xFF, 0xFF, 0xFF, 0xFF, 0xFF];
    let result = decode_signal_value(0, 64, ByteOrder::LittleEndian, ValueType::Signed, &data);
    assert!(result.is_ok());
    assert_eq!(scaled(result.unwrap(), 1.0, 0.0), -1.0);
}

#[test]
fn dbc_handler_test_decode_message_index_out_of_bounds() {
    let parsed = handler_with(MINIMAL_DBC, None);
    let mut map: HashMap<u32, (usize, bool)> = HashMap::new();
    map.insert(100, (999, false));
    let handler = DbcHandler { messages: parsed.messages, message_index_by_id: map, error_map: None };
    let frame = frame_100(&[0x01, 0x02, 0x03, 0x04]);
    let result = handler.decode(&frame);
    assert!(result.is_err());
    assert!(result.unwrap_err().message().contains("Message index 999 out of bounds"));
}

#[test]
fn dbc_handler_test_extract_signal_value_little_endian_edge_of_data() {
    let data = [0xFF, 0xFF];
    let result = extract_signal_value(&data, 0, 16, ByteOrder::LittleEndian);
    assert!(result.is_ok());
    assert_eq!(result.unwrap(), 0xFFFF);
}

#[test]
fn dbc_handler_test_extract_signal_value_big_endian_single_bit() {
    let data = [0b10000000];
    let result = extract_signal_value(&data, 7, 1, ByteOrder::BigEndian);
    assert!(result.is_ok());
    assert_eq!(result.unwrap(), 1);
}

#[test]
fn dbc_handler_test_decode_signal_value_signed_16_bit_negative() {
    let data = [0xFF, 0xFF];
    let result = decode_signal_value(0, 16, ByteOrder::LittleEndian, ValueType::Signed, &data);
    assert!(result.is_ok());
    assert_eq!(scaled(result.unwrap(), 1.0, 0.0), -1.0);
}

#[test]
fn dbc_handler_test_decode_signal_value_signed_16_bit_positive() {
    let data = [0xFF, 0x7F];
    let result = decode_signal_value(0, 16, ByteOrder::LittleEndian, ValueType::Signed, &data);
    assert!(result.is_ok());
    assert_eq!(scaled(result.unwrap(), 1.0, 0.0), 32767.0);
}

#[test]
fn dbc_handler_test_extract_signal_value_little_endian_crossing_bytes() {
    let data = [0x00, 0xFF, 0x00];
    let result = extract_signal_value(&data, 8, 8, ByteOrder::LittleEndian);
    assert!(result.is_ok());
    assert_eq!(result.unwrap(), 0xFF);
}

#[test]
fn dbc_handler_test_extract_signal_value_big_endian_multi_byte() {
    let data = [0x12, 0x34, 0x56, 0x78];
    let result = extract_signal_value(&data, 7, 16, ByteOrder::BigEndian);
    assert!(result.is_ok());
    assert_eq!(result.unwrap(), 0x1234);
}

#[test]
fn dbc_handler_test_id_to_u32_standard() {
    let id = CanId::standard(0x123).unwrap();
    assert_eq!(id_to_u32(&id), 0x123);
}

#[test]
fn dbc_handler_test_id_to_u32_extended() {
    let id = CanId::extended(0x12345).unwrap();
    assert_eq!(id_to_u32(&id), 0x12345 | (1 << 31));
}

#[test]
fn dbc_handler_test_decode_with_multiple_signals() {
    let handler = handler_with(
        r#"
VERSION ""

NS_ :

BS_:

BO_ 100 TestMessage: 8 Vector__XXX
 SG_ Signal1 : 0|8@1+ (1,0) [0|255] "" Vector__XXX
 SG_ Signal2 : 8|8@1+ (1,0) [0|255] "" Vector__XXX
 SG_ Signal3 : 16|16@1+ (0.1,0) [0|6553.5] "" Vector__XXX
"#,
        None,
    );
    let frame = frame_100(&[0x10, 0x20, 0xE8, 0x03, 0x00, 0x00, 0x00, 0x00]);
    let result = handler.decode(&frame);
    assert!(result.is_ok());
    let decoded = result.unwrap();
    assert_eq!(decoded.name, "TestMessage");
    assert_eq!(decoded.signals.len(), 3);
    assert_eq!(value(&decoded.signals[0]), 16.0);
    assert_eq!(value(&decoded.signals[1]), 32.0);
    assert_eq!(value(&decoded.signals[2]), 100.0);
}

#[test]
fn dbc_handler_test_decode_signal_with_offset_and_factor() {
    let handler = handler_with(
        r#"
VERSION ""

NS_ :

BS_:

BO_ 100 TestMessage: 8 Vector__XXX
 SG_ Temperature : 0|16@1+ (0.1,-40) [-40|615.5] "°C" Vector__XXX
"#,
        None,
    );
    let frame = frame_100(&[0x90, 0x01, 0x00, 0x00, 0x00, 0x00, 0x00, 0x00]);
    let result = handler.decode(&frame);
    assert!(result.is_ok());
    let decoded = result.unwrap();
    assert_eq!(decoded.signals.len(), 1);
    assert_eq!(decoded.signals[0].name, "Temperature");
    assert_eq!(unit(&handler, &decoded.signals[0]), "°C");
    assert_eq!(value(&decoded.signals[0]), 0.0);
}

