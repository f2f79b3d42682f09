use can_receiver::frame::{CanId, id_to_u32, unpack_id};
use can_receiver::websocket::{
    build_frame_from_request, handle_client_message, raw_cache_key, should_send, CanTransmitRequest,
    ClientAction, ClientMessage, ClientState, RawFrame, TransmitError, on_write_error, WriteFailure, ENOBUFS,
};
use time::OffsetDateTime;

fn sample_frame() -> RawFrame {
    RawFrame {
        message_id: 291,
        is_extended: false,
        data: vec![1, 2, 3],
        timestamp: OffsetDateTime::from_unix_timestamp(0).unwrap(),
    }
}

#[test]
fn raw_cache_key_sets_bit31_for_extended_only() {
    let mut f = sample_frame();
    f.message_id = 0x123;
    f.is_extended = false;
    assert_eq!(raw_cache_key(&f), 0x123);
    f.is_extended = true;
    assert_eq!(raw_cache_key(&f), 0x123 | (1 << 31));
}

#[test]
fn raw_cache_key_mirrors_id_to_u32() {
    for id in [CanId::standard(0x7FF).unwrap(), CanId::extended(0x7FF).unwrap(), CanId::extended(0x1FFF_FFFF).unwrap()] {
        let (message_id, is_extended) = unpack_id(&id);
        let mut f = sample_frame();
        f.message_id = message_id;
        f.is_extended = is_extended;
        assert_eq!(raw_cache_key(&f), id_to_u32(&id));
    }
    assert_ne!(
        id_to_u32(&CanId::standard(0x100).unwrap()),
        id_to_u32(&CanId::extended(0x100).unwrap())
    );
}

#[test]
fn new_client_receives_everything_but_no_raw_frames() {
    let state = ClientState::new();
    assert!(state.subscriptions.is_none());
    assert!(!state.raw);
    assert!(should_send(&state.subscriptions, &"BMS_Status".to_string()));
}

#[test]
fn subscription_filters_updates() {
    let mut state = ClientState::new();
    let action = handle_client_message(
        &mut state,
        ClientMessage::Subscribe { message_names: vec!["BMS_Status".to_string(), "Motor_Speed".to_string()] },
        true,
    );
    assert!(matches!(action, ClientAction::SendSnapshot));
    assert!(should_send(&state.subscriptions, &"Motor_Speed".to_string()));
    assert!(!should_send(&state.subscriptions, &"Other".to_string()));
    // a new subscription replaces the old one; an empty list means everything
    handle_client_message(&mut state, ClientMessage::Subscribe { message_names: vec![] }, true);
    assert!(state.subscriptions.is_none());
    assert!(should_send(&state.subscriptions, &"Other".to_string()));
}

#[test]
fn raw_stream_subscription_follows_configuration() {
    let mut state = ClientState::new();
    let action = handle_client_message(&mut state, ClientMessage::SubscribeRaw, false);
    assert!(matches!(action, ClientAction::RawStreamDisabled));
    assert!(!state.raw);
    let action = handle_client_message(&mut state, ClientMessage::SubscribeRaw, true);
    assert!(matches!(action, ClientAction::SendRawSnapshot));
    assert!(state.raw);
    let action = handle_client_message(&mut state, ClientMessage::UnsubscribeRaw, true);
    assert!(matches!(action, ClientAction::LeftRawStream));
    assert!(!state.raw);
}

#[test]
fn transmit_message_is_forwarded() {
    let mut state = ClientState::new();
    let action = handle_client_message(
        &mut state,
        ClientMessage::Transmit { message_id: 0x10, data: vec![1, 2], is_extended: None },
        true,
    );
    match action {
        ClientAction::Transmit(req) => {
            assert_eq!(req.message_id, 0x10);
            assert_eq!(req.data, vec![1, 2]);
            assert_eq!(req.is_extended, None);
        }
        _ => panic!("expected a transmit action"),
    }
}

fn request(message_id: u32, data: Vec<u8>, is_extended: Option<bool>) -> CanTransmitRequest {
    CanTransmitRequest { message_id, data, is_extended }
}

#[test]
fn transmit_request_picks_identifier_kind() {
    let f = build_frame_from_request(&request(0x7FF, vec![1], None)).unwrap();
    assert_eq!(f.id, CanId::Standard(0x7FF));
    assert_eq!(f.data, vec![1]);
    let f = build_frame_from_request(&request(0x800, vec![], None)).unwrap();
    assert_eq!(f.id, CanId::Extended(0x800));
    let f = build_frame_from_request(&request(0x10, vec![], Some(true))).unwrap();
    assert_eq!(f.id, CanId::Extended(0x10));
    // an explicit standard request uses the low 16 bits of the id
    let f = build_frame_from_request(&request(0x1_0005, vec![], Some(false))).unwrap();
    assert_eq!(f.id, CanId::Standard(5));
}

#[test]
fn transmit_request_errors() {
    assert_eq!(
        build_frame_from_request(&request(1, vec![0; 9], None)).unwrap_err(),
        TransmitError::PayloadTooLong { len: 9 }
    );
    assert_eq!(
        build_frame_from_request(&request(0x800, vec![], Some(false))).unwrap_err(),
        TransmitError::InvalidStandardId { id: 0x800 }
    );
    assert_eq!(
        build_frame_from_request(&request(0x2000_0000, vec![], Some(true))).unwrap_err(),
        TransmitError::InvalidExtendedId { id: 0x2000_0000 }
    );
    assert_eq!(
        build_frame_from_request(&request(0x2000_0000, vec![], None)).unwrap_err(),
        TransmitError::InvalidExtendedId { id: 0x2000_0000 }
    );
}

#[test]
fn full_transmit_queue_only_drops_the_frame() {
    assert_eq!(on_write_error(Some(ENOBUFS)), WriteFailure::DropFrame);
    assert_eq!(on_write_error(Some(105)), WriteFailure::DropFrame);
    assert_eq!(on_write_error(Some(19)), WriteFailure::Stop);
    assert_eq!(on_write_error(None), WriteFailure::Stop);
}

#[test]
fn resubscribing_replaces_the_list() {
    let mut state = ClientState::new();
    handle_client_message(
        &mut state,
        ClientMessage::Subscribe { message_names: vec!["BMS_Status".to_string()] },
        true,
    );
    handle_client_message(
        &mut state,
        ClientMessage::Subscribe { message_names: vec!["Motor_Speed".to_string()] },
        true,
    );
    assert_eq!(state.subscriptions, Some(vec!["Motor_Speed".to_string()]));
    assert!(!should_send(&state.subscriptions, &"BMS_Status".to_string()));
    handle_client_message(&mut state, ClientMessage::Subscribe { message_names: vec![] }, true);
    assert_eq!(state.subscriptions, None);
    assert!(should_send(&state.subscriptions, &"BMS_Status".to_string()));
}

#[test]
fn leaving_raw_stream_restores_client() {
    let mut state = ClientState::new();
    handle_client_message(
        &mut state,
        ClientMessage::Subscribe { message_names: vec!["BMS_Status".to_string()] },
        true,
    );
    let before = state.clone();
    assert!(matches!(handle_client_message(&mut state, ClientMessage::SubscribeRaw, true), ClientAction::SendRawSnapshot));
    assert!(state.raw);
    assert!(matches!(handle_client_message(&mut state, ClientMessage::UnsubscribeRaw, true), ClientAction::LeftRawStream));
    assert_eq!(state.raw, before.raw);
    assert_eq!(state.subscriptions, before.subscriptions);
}
