use can_receiver::dbc::{error_map_of, is_error_frame, DbcHandler, DecodedSignal, MessageDef};
use can_receiver::frame::{id_to_u32, unpack_id, CanFrame, CanId};
use can_receiver::signal::{decode_signal_value, extract_signal_value, ByteOrder, ValueType};
use std::collections::HashMap;

fn scaled(raw: i128, factor: f64, offset: f64) -> f64 {
    raw as f64 * factor + offset
}

fn value(s: &DecodedSignal) -> f64 {
    scaled(s.raw, f64::from_bits(s.factor_bits), f64::from_bits(s.offset_bits))
}

fn unit(handler: &DbcHandler, s: &DecodedSignal) -> String {
    handler.resolve_unit(s, value(s).round() as u32)
}

fn handler_with(dbc_content: &str, error_map: Option<HashMap<u32, String>>) -> DbcHandler {
    match DbcHandler::from_dbc_text(dbc_content, error_map) {
        Ok(h) => h,
        Err(e) => panic!("DBC refused: {:?}", e),
    }
}

fn frame_100(data: &[u8]) -> CanFrame {
    CanFrame::new(CanId::standard(100).unwrap(), data).unwrap()
}

const MINIMAL_DBC: &str = r#"
VERSION ""

NS_ :

BS_:

BO_ 100 TestMessage: 8 Vector__XXX
"#;

#[test]
fn dbc_handler_test_test_decode_signal_value_zero_size() {
    let data = [0x12, 0x34, 0x56, 0x78];
    let result = decode_signal_value(0, 0, ByteOrder::LittleEndian, ValueType::Unsigned, &data);
    assert!(result.is_err());
    assert!(result.unwrap_err().message().contains("Invalid signal size: 0"));
}

#[test]
fn dbc_handler_test_test_decode_signal_value_size_exceeds_64() {
    let data = [0x12, 0x34, 0x56, 0x78];
    let result = decode_signal_value(0, 65, ByteOrder::LittleEndian, ValueType::Unsigned, &data);
    assert!(result.is_err());
    assert!(result.unwrap_err().message().contains("Invalid signal size: 65"));
}

#[test]
fn dbc_handler_test_test_extract_signal_value_little_endian_insufficient_data() {
    let data = [0x12, 0x34];
    let result = extract_signal_value(&data, 8, 24, ByteOrder::LittleEndian);
    assert!(result.is_err());
    assert!(result.unwrap_err().message().contains("Not enough data to decode little-endian signal"));
}

#[test]
fn dbc_handler_test_test_extract_signal_value_big_endian_insufficient_data() {
    let data = [0x12, 0x34];
    let result = extract_signal_value(&data, 7, 24, ByteOrder::BigEndian);
    assert!(result.is_err());
    assert!(result.unwrap_err().message().contains("Not enough data to decode big-endian signal"));
}

#[test]
fn dbc_handler_test_test_decode_empty_frame() {
    let handler = handler_with(MINIMAL_DBC, None);
    let frame = frame_100(&[]);
    // Empty frames are supported: a message without signals decodes to no values.
    let result = handler.decode(&frame);
    assert!(result.is_ok());
    let decoded = result.unwrap();
    assert_eq!(decoded.name, "TestMessage");
    assert!(decoded.signals.is_empty());
}

#[test]
fn dbc_handler_test_test_decode_frame_data_exceeds_8_bytes() {
    let result = CanFrame::new(
        CanId::standard(100).unwrap(),
        &[0x01, 0x02, 0x03, 0x04, 0x05, 0x06, 0x07, 0x08, 0x09],
    );
    assert!(result.is_none());
}

#[test]
fn dbc_handler_test_test_decode_no_message_definition_found() {
    let handler = handler_with(MINIMAL_DBC, None);
    let frame = CanFrame::new(CanId::standard(200).unwrap(), &[0x01, 0x02, 0x03, 0x04]).unwrap();
    let result = handler.decode(&frame);
    assert!(result.is_err());
    assert!(result.unwrap_err().message().contains("No message definition found for frame ID"));
}

#[test]
fn dbc_handler_test_test_decode_signal_value_signed_positive() {
    let data = [0b00001111];
    let result = decode_signal_value(0, 8, ByteOrder::LittleEndian, ValueType::Signed, &data);
    assert!(result.is_ok());
    assert_eq!(scaled(result.unwrap(), 1.0, 0.0), 15.0);
}

#[test]
fn dbc_handler_test_test_decode_signal_value_signed_negative() {
    let data = [0b11111111];
    let result = decode_signal_value(0, 8, ByteOrder::LittleEndian, ValueType::Signed, &data);
    assert!(result.is_ok());
    assert_eq!(scaled(result.unwrap(), 1.0, 0.0), -1.0);
}

#[test]
fn dbc_handler_test_test_decode_signal_value_unsigned() {
    let data = [0xFF];
    let result = decode_signal_value(0, 8, ByteOrder::LittleEndian, ValueType::Unsigned, &data);
    assert!(result.is_ok());
    assert_eq!(scaled(result.unwrap(), 1.0, 0.0), 255.0);
}

#[test]
fn dbc_handler_test_test_extract_signal_value_little_endian_basic() {
    let data = [0x12, 0x34, 0x56, 0x78];
    let result = extract_signal_value(&data, 0, 8, ByteOrder::LittleEndian);
    assert!(result.is_ok());
    assert_eq!(result.unwrap(), 0x12);
}

#[test]
fn dbc_handler_test_test_extract_signal_value_big_endian_basic() {
    let data = [0x12, 0x34, 0x56, 0x78];
    let result = extract_signal_value(&data, 7, 8, ByteOrder::BigEndian);
    assert!(result.is_ok());
    assert_eq!(result.unwrap(), 0x12);
}

#[test]
fn dbc_handler_test_test_decode_with_valid_signal() {
    let handler = handler_with(
        r#"
VERSION ""

NS_ :

BS_:

BO_ 100 TestMessage: 8 Vector__XXX
 SG_ TestSignal : 0|8@1+ (1,0) [0|255] "" Vector__XXX
"#,
        None,
    );
    let frame = frame_100(&[0x42, 0x00, 0x00, 0x00, 0x00, 0x00, 0x00, 0x00]);
    let result = handler.decode(&frame);
    assert!(result.is_ok());
    let decoded = result.unwrap();
    assert_eq!(decoded.name, "TestMessage");
    assert_eq!(decoded.signals.len(), 1);
    assert_eq!(decoded.signals[0].name, "TestSignal");
    assert_eq!(value(&decoded.signals[0]), 66.0);
}

#[test]
fn dbc_handler_test_test_extract_signal_value_little_endian_multi_byte() {
    let data = [0x34, 0x12];
    let result = extract_signal_value(&data, 0, 16, ByteOrder::LittleEndian);
    assert!(result.is_ok());
    assert_eq!(result.unwrap(), 0x1234);
}

#[test]
fn dbc_handler_test_test_extract_signal_value_little_endian_partial_byte() {
    let data = [0b11110000];
    let result = extract_signal_value(&data, 4, 4, ByteOrder::LittleEndian);
    assert!(result.is_ok());
    assert_eq!(result.unwrap(), 0b1111);
}

#[test]
fn dbc_handler_test_test_decode_signal_value_64_bit_signed() {
    let data = [0xFF, 0xFF, 0xFF, 0xFF, 0xFF, 0xFF, 0xFF, 0xFF];
    let result = decode_signal_value(0, 64, ByteOrder::LittleEndian, ValueType::Signed, &data);
    assert!(result.is_ok());
    assert_eq!(scaled(result.unwrap(), 1.0, 0.0), -1.0);
}

#[test]
fn dbc_handler_test_test_decode_message_index_out_of_bounds() {
    let parsed = handler_with(MINIMAL_DBC, None);
    let mut map: HashMap<u32, (usize, bool)> = HashMap::new();
    map.insert(100, (999, false));
    let handler = DbcHandler { messages: parsed.messages, message_index_by_id: map, error_map: None };
    let frame = frame_100(&[0x01, 0x02, 0x03, 0x04]);
    let result = handler.decode(&frame);
    assert!(result.is_err());
    assert!(result.unwrap_err().message().contains("Message index 999 out of bounds"));
}

#[test]
fn dbc_handler_test_test_extract_signal_value_little_endian_edge_of_data() {
    let data = [0xFF, 0xFF];
    let result = extract_signal_value(&data, 0, 16, ByteOrder::LittleEndian);
    assert!(result.is_ok());
    assert_eq!(result.unwrap(), 0xFFFF);
}

#[test]
fn dbc_handler_test_test_extract_signal_value_big_endian_single_bit() {
    let data = [0b10000000];
    let result = extract_signal_value(&data, 7, 1, ByteOrder::BigEndian);
    assert!(result.is_ok());
    assert_eq!(result.unwrap(), 1);
}

#[test]
fn dbc_handler_test_test_decode_signal_value_signed_16_bit_negative() {
    let data = [0xFF, 0xFF];
    let result = decode_signal_value(0, 16, ByteOrder::LittleEndian, ValueType::Signed, &data);
    assert!(result.is_ok());
    assert_eq!(scaled(result.unwrap(), 1.0, 0.0), -1.0);
}

#[test]
fn dbc_handler_test_test_decode_signal_value_signed_16_bit_positive() {
    let data = [0xFF, 0x7F];
    let result = decode_signal_value(0, 16, ByteOrder::LittleEndian, ValueType::Signed, &data);
    assert!(result.is_ok());
    assert_eq!(scaled(result.unwrap(), 1.0, 0.0), 32767.0);
}

#[test]
fn dbc_handler_test_test_extract_signal_value_little_endian_crossing_bytes() {
    let data = [0x00, 0xFF, 0x00];
    let result = extract_signal_value(&data, 8, 8, ByteOrder::LittleEndian);
    assert!(result.is_ok());
    assert_eq!(result.unwrap(), 0xFF);
}

#[test]
fn dbc_handler_test_test_extract_signal_value_big_endian_multi_byte() {
    let data = [0x12, 0x34, 0x56, 0x78];
    let result = extract_signal_value(&data, 7, 16, ByteOrder::BigEndian);
    assert!(result.is_ok());
    assert_eq!(result.unwrap(), 0x1234);
}

#[test]
fn dbc_handler_test_test_id_to_u32_standard() {
    let id = CanId::standard(0x123).unwrap();
    assert_eq!(id_to_u32(&id), 0x123);
}

#[test]
fn dbc_handler_test_test_id_to_u32_extended() {
    let id = CanId::extended(0x12345).unwrap();
    assert_eq!(id_to_u32(&id), 0x12345 | (1 << 31));
}

#[test]
fn dbc_handler_test_test_decode_with_multiple_signals() {
    let handler = handler_with(
        r#"
VERSION ""

NS_ :

BS_:

BO_ 100 TestMessage: 8 Vector__XXX
 SG_ Signal1 : 0|8@1+ (1,0) [0|255] "" Vector__XXX
 SG_ Signal2 : 8|8@1+ (1,0) [0|255] "" Vector__XXX
 SG_ Signal3 : 16|16@1+ (0.1,0) [0|6553.5] "" Vector__XXX
"#,
        None,
    );
    let frame = frame_100(&[0x10, 0x20, 0xE8, 0x03, 0x00, 0x00, 0x00, 0x00]);
    let result = handler.decode(&frame);
    assert!(result.is_ok());
    let decoded = result.unwrap();
    assert_eq!(decoded.name, "TestMessage");
    assert_eq!(decoded.signals.len(), 3);
    assert_eq!(value(&decoded.signals[0]), 16.0);
    assert_eq!(value(&decoded.signals[1]), 32.0);
    assert_eq!(value(&decoded.signals[2]), 100.0);
}

#[test]
fn dbc_handler_test_test_decode_signal_with_offset_and_factor() {
    let handler = handler_with(
        r#"
VERSION ""

NS_ :

BS_:

BO_ 100 TestMessage: 8 Vector__XXX
 SG_ Temperature : 0|16@1+ (0.1,-40) [-40|615.5] "°C" Vector__XXX
"#,
        None,
    );
    let frame = frame_100(&[0x90, 0x01, 0x00, 0x00, 0x00, 0x00, 0x00, 0x00]);
    let result = handler.decode(&frame);
    assert!(result.is_ok());
    let decoded = result.unwrap();
    assert_eq!(decoded.signals.len(), 1);
    assert_eq!(decoded.signals[0].name, "Temperature");
    assert_eq!(unit(&handler, &decoded.signals[0]), "°C");
    assert_eq!(value(&decoded.signals[0]), 0.0);
}

#[test]
fn test_decode_big_endian_signal() {
    let handler = handler_with(
        r#"
VERSION ""

NS_ :

BS_:

BO_ 100 TestMessage: 8 Vector__XXX
 SG_ BigEndianSignal : 7|8@0+ (1,0) [0|255] "" Vector__XXX
"#,
        None,
    );
    let frame = frame_100(&[0x42, 0x00, 0x00, 0x00, 0x00, 0x00, 0x00, 0x00]);
    let result = handler.decode(&frame);
    assert!(result.is_ok());
    let decoded = result.unwrap();
    assert_eq!(decoded.name, "TestMessage");
    assert_eq!(decoded.signals.len(), 1);
    assert_eq!(decoded.signals[0].name, "BigEndianSignal");
    assert_eq!(value(&decoded.signals[0]), 66.0);
}

#[test]
fn test_decode_big_endian_16bit_signal() {
    let handler = handler_with(
        r#"
VERSION ""

NS_ :

BS_:

BO_ 100 TestMessage: 8 Vector__XXX
 SG_ BigEndian16 : 7|16@0+ (1,0) [0|65535] "" Vector__XXX
"#,
        None,
    );
    let frame = frame_100(&[0x12, 0x34, 0x00, 0x00, 0x00, 0x00, 0x00, 0x00]);
    let result = handler.decode(&frame);
    assert!(result.is_ok());
    let decoded = result.unwrap();
    assert_eq!(decoded.signals.len(), 1);
    assert_eq!(value(&decoded.signals[0]), 0x1234 as f64);
}

#[test]
fn test_decode_big_endian_signal_with_factor() {
    let handler = handler_with(
        r#"
VERSION ""

NS_ :

BS_:

BO_ 100 TestMessage: 8 Vector__XXX
 SG_ Speed : 7|16@0+ (0.01,0) [0|655.35] "km/h" Vector__XXX
"#,
        None,
    );
    let frame = frame_100(&[0x27, 0x10, 0x00, 0x00, 0x00, 0x00, 0x00, 0x00]);
    let result = handler.decode(&frame);
    assert!(result.is_ok());
    let decoded = result.unwrap();
    assert_eq!(decoded.signals.len(), 1);
    assert_eq!(decoded.signals[0].name, "Speed");
    assert_eq!(unit(&handler, &decoded.signals[0]), "km/h");
    assert_eq!(value(&decoded.signals[0]), 100.0);
}

#[test]
fn test_decode_mixed_endianness_signals() {
    let handler = handler_with(
        r#"
VERSION ""

NS_ :

BS_:

BO_ 100 TestMessage: 8 Vector__XXX
 SG_ LittleEndianSignal : 0|8@1+ (1,0) [0|255] "" Vector__XXX
 SG_ BigEndianSignal : 15|8@0+ (1,0) [0|255] "" Vector__XXX
"#,
        None,
    );
    let frame = frame_100(&[0xAA, 0xBB, 0x00, 0x00, 0x00, 0x00, 0x00, 0x00]);
    let result = handler.decode(&frame);
    assert!(result.is_ok());
    let decoded = result.unwrap();
    assert_eq!(decoded.name, "TestMessage");
    assert_eq!(decoded.signals.len(), 2);
    assert_eq!(decoded.signals[0].name, "LittleEndianSignal");
    assert_eq!(value(&decoded.signals[0]), 0xAA as f64);
    assert_eq!(decoded.signals[1].name, "BigEndianSignal");
    assert_eq!(value(&decoded.signals[1]), 0xBB as f64);
}

#[test]
fn test_decode_big_endian_signed_signal() {
    let handler = handler_with(
        r#"
VERSION ""

NS_ :

BS_:

BO_ 100 TestMessage: 8 Vector__XXX
 SG_ SignedBigEndian : 7|16@0- (1,0) [-32768|32767] "" Vector__XXX
"#,
        None,
    );
    let frame = frame_100(&[0xFF, 0xFF, 0x00, 0x00, 0x00, 0x00, 0x00, 0x00]);
    let result = handler.decode(&frame);
    assert!(result.is_ok());
    let decoded = result.unwrap();
    assert_eq!(decoded.signals.len(), 1);
    assert_eq!(value(&decoded.signals[0]), -1.0);
}

#[test]
fn test_decode_big_endian_32bit_signal() {
    let handler = handler_with(
        r#"
VERSION ""

NS_ :

BS_:

BO_ 100 TestMessage: 8 Vector__XXX
 SG_ BigEndian32 : 7|32@0+ (1,0) [0|4294967295] "" Vector__XXX
"#,
        None,
    );
    let frame = frame_100(&[0x12, 0x34, 0x56, 0x78, 0x00, 0x00, 0x00, 0x00]);
    let result = handler.decode(&frame);
    assert!(result.is_ok());
    let decoded = result.unwrap();
    assert_eq!(decoded.signals.len(), 1);
    assert_eq!(value(&decoded.signals[0]), 0x12345678 as f64);
}

#[test]
fn unpack_id_standard_returns_raw_and_false() {
    let id = CanId::standard(0x123).unwrap();
    assert_eq!(unpack_id(&id), (0x123, false));
}

#[test]
fn unpack_id_extended_returns_raw_and_true() {
    let id = CanId::extended(0x1ABCD).unwrap();
    assert_eq!(unpack_id(&id), (0x1ABCD, true));
}

const EMCY_DBC: &str = r#"
VERSION ""

NS_ :

BS_:

BO_ 100 MOTOR_EMCY: 8 Vector__XXX
 SG_ ErrorCode : 0|16@1+ (1,0) [0|65535] "" Vector__XXX
 SG_ Voltage : 16|16@1+ (0.1,0) [0|6553.5] "V" Vector__XXX
"#;

/// 0x8110 error code in the first signal, raw 1000 (=100.0 V) in the second.
const EMCY_FRAME: [u8; 8] = [0x10, 0x81, 0xE8, 0x03, 0x00, 0x00, 0x00, 0x00];

#[test]
fn is_error_frame_matches_known_suffixes() {
    assert!(is_error_frame("MOTOR_EMCY"));
    assert!(is_error_frame("BMS_NODE"));
    assert!(!is_error_frame("EMCY_MOTOR"));
    assert!(!is_error_frame("MOTOR_STATUS"));
    assert!(!is_error_frame(""));
}

#[test]
fn error_frame_maps_code_to_name_in_unit_field() {
    let handler = handler_with(EMCY_DBC, error_map_of(&[(0x8110, "CAN overrun")]));
    let decoded = handler.decode(&frame_100(&EMCY_FRAME)).unwrap();
    assert_eq!(decoded.name, "MOTOR_EMCY");
    assert_eq!(decoded.signals.len(), 2);
    assert_eq!(decoded.signals[0].name, "ErrorCode");
    assert_eq!(value(&decoded.signals[0]), 0x8110 as f64);
    assert_eq!(unit(&handler, &decoded.signals[0]), "CAN overrun");
    assert_eq!(decoded.signals[1].name, "Voltage");
    assert_eq!(value(&decoded.signals[1]), 100.0);
    assert_eq!(unit(&handler, &decoded.signals[1]), "V");
}

#[test]
fn error_frame_falls_back_to_unit_when_code_is_unknown() {
    let handler = handler_with(EMCY_DBC, error_map_of(&[(0x1234, "Some other fault")]));
    let decoded = handler.decode(&frame_100(&EMCY_FRAME)).unwrap();
    assert_eq!(decoded.signals.len(), 2);
    assert_eq!(unit(&handler, &decoded.signals[0]), "");
}

#[test]
fn error_frame_decodes_normally_when_error_map_is_disabled() {
    let handler = handler_with(EMCY_DBC, None);
    let decoded = handler.decode(&frame_100(&EMCY_FRAME)).unwrap();
    assert_eq!(decoded.signals.len(), 2);
    assert_eq!(decoded.signals[0].name, "ErrorCode");
    assert_eq!(value(&decoded.signals[0]), 0x8110 as f64);
    assert_eq!(unit(&handler, &decoded.signals[0]), "");
}

#[test]
fn non_error_frame_is_not_mapped_even_with_a_matching_code() {
    let dbc_content = EMCY_DBC.replace("MOTOR_EMCY", "MOTOR_STATUS");
    let handler = handler_with(&dbc_content, error_map_of(&[(0x8110, "CAN overrun")]));
    let decoded = handler.decode(&frame_100(&EMCY_FRAME)).unwrap();
    assert_eq!(decoded.signals.len(), 2);
    assert_eq!(unit(&handler, &decoded.signals[0]), "");
}

#[test]
fn error_frame_with_a_single_signal_is_not_truncated() {
    let handler = handler_with(
        r#"
VERSION ""

NS_ :

BS_:

BO_ 100 MOTOR_EMCY: 8 Vector__XXX
 SG_ ErrorCode : 0|16@1+ (1,0) [0|65535] "" Vector__XXX
"#,
        error_map_of(&[(0x8110, "CAN overrun")]),
    );
    let decoded = handler.decode(&frame_100(&EMCY_FRAME)).unwrap();
    assert_eq!(decoded.signals.len(), 1);
    assert_eq!(unit(&handler, &decoded.signals[0]), "CAN overrun");
}

#[test]
fn error_frame_without_signals_yields_no_values() {
    let handler = handler_with(
        r#"
VERSION ""

NS_ :

BS_:

BO_ 100 MOTOR_EMCY: 8 Vector__XXX
"#,
        error_map_of(&[(0x8110, "CAN overrun")]),
    );
    let decoded = handler.decode(&frame_100(&EMCY_FRAME)).unwrap();
    assert!(decoded.signals.is_empty());
}

#[test]
fn repeated_id_decodes_with_the_last_message() {
    let messages = vec![
        MessageDef { id: 100, name: "First".to_string(), signals: vec![] },
        MessageDef { id: 200, name: "Other_EMCY".to_string(), signals: vec![] },
        MessageDef { id: 100, name: "Second_NODE".to_string(), signals: vec![] },
    ];
    let handler = DbcHandler::from_messages(messages, None);
    assert_eq!(handler.message_index_by_id.get(&100), Some(&(2, true)));
    assert_eq!(handler.message_index_by_id.get(&200), Some(&(1, true)));
    let decoded = handler.decode(&frame_100(&[])).unwrap();
    assert_eq!(decoded.name, "Second_NODE");
    let missing = handler.decode(&CanFrame::new(CanId::standard(300).unwrap(), &[]).unwrap());
    assert!(missing.unwrap_err().message().contains("No message definition found for frame ID: Standard(StandardId(300))"));
}

#[test]
fn decode_errors_name_the_frame_id_in_debug_form() {
    let handler = handler_with(MINIMAL_DBC, None);
    let extended = CanFrame::new(CanId::extended(291).unwrap(), &[]).unwrap();
    assert_eq!(
        handler.decode(&extended).unwrap_err().message(),
        "No message definition found for frame ID: Extended(ExtendedId(291))"
    );
    let too_long = CanFrame { id: CanId::Standard(100), data: vec![0; 9] };
    assert_eq!(
        handler.decode(&too_long).unwrap_err().message(),
        "Error: Frame ID: Standard(StandardId(100)) is either empty or data exceeds 8 bytes!"
    );
    let mut map: HashMap<u32, (usize, bool)> = HashMap::new();
    map.insert(100, (7, false));
    let broken = DbcHandler { messages: handler.messages.clone(), message_index_by_id: map, error_map: None };
    assert_eq!(
        broken.decode(&frame_100(&[1])).unwrap_err().message(),
        "Message index 7 out of bounds for frame ID: Standard(StandardId(100))"
    );
}
