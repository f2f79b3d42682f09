//! Decisions of the WebSocket server: what a client asked for, which updates it
//! receives, how raw frames are keyed, and how a transmit request becomes a frame.
use vstd::prelude::*;
use crate::frame::{CanFrame, CanId, MAX_DATA_LEN, MAX_EXTENDED_ID, MAX_STANDARD_ID, EXTENDED_FLAG, id_key, id_parts};

verus! {

#[verifier::external_type_specification]
#[verifier::external_body]
pub struct ExOffsetDateTime(time::OffsetDateTime);

/// Messages from a client to the server.
#[derive(Clone, Debug)]
pub enum ClientMessage {
    /// Subscribe to the named messages, or to all of them when the list is empty.
    Subscribe { message_names: Vec<String> },
    /// Opt into the raw frame stream (snapshot and updates).
    SubscribeRaw,
    /// Opt out of the raw frame stream.
    UnsubscribeRaw,
    /// Ask the server to put a frame on the bus.
    Transmit { message_id: u32, data: Vec<u8>, is_extended: Option<bool> },
}

/// A frame that a client asked to transmit.
#[derive(Clone, Debug)]
pub struct CanTransmitRequest {
    pub message_id: u32,
    pub data: Vec<u8>,
    pub is_extended: Option<bool>,
}

/// An owned raw CAN frame as passed to the server; `data` holds 0 to 8 bytes.
#[derive(Debug)]
pub struct RawFrame {
    pub message_id: u32,
    pub is_extended: bool,
    pub data: Vec<u8>,
    pub timestamp: time::OffsetDateTime,
}

/// What the server keeps of a connected client.
#[derive(Clone, Debug)]
pub struct ClientState {
    /// `None` receives every message, `Some` only the listed names.
    pub subscriptions: Option<Vec<String>>,
    /// The client opted into the raw frame stream.
    pub raw: bool,
}

/// What the server does after a client message.
#[derive(Clone, Debug)]
pub enum ClientAction {
    /// Send the cached decoded messages that the new subscription selects.
    SendSnapshot,
    /// Send the cached raw frames.
    SendRawSnapshot,
    /// The raw stream is switched off in the configuration; nothing changes.
    RawStreamDisabled,
    /// The client left the raw stream; nothing is sent.
    LeftRawStream,
    /// Hand the request to the CAN transmitter.
    Transmit(CanTransmitRequest),
}

/// A client message names `name` among its subscriptions (or subscribes to all).
pub open spec fn is_subscribed(subscriptions: Option<Seq<String>>, name: Seq<char>) -> bool {
    match subscriptions {
        None => true,
        Some(names) => names_contain(names, name),
    }
}

/// The names that a subscription lists, as a sequence.
pub open spec fn subscription_view(subscriptions: Option<Vec<String>>) -> Option<Seq<String>> {
    match subscriptions {
        None => None,
        Some(v) => Some(v@),
    }
}

/// One of `names` is `name`.
pub open spec fn names_contain(names: Seq<String>, name: Seq<char>) -> bool {
    exists|i: int| 0 <= i < names.len() && (#[trigger] names[i])@ == name
}

impl ClientState {
    /// A newly connected client: subscribed to everything, not to raw frames.
    pub fn new() -> (r: ClientState)
        ensures
            r.subscriptions is None,
            !r.raw,
    {
        ClientState { subscriptions: None, raw: false }
    }

}

/// Whether an update of `message_name` goes to a client with these subscriptions;
/// the same test selects what a snapshot holds.
pub fn should_send(subscriptions: &Option<Vec<String>>, message_name: &String) -> (r: bool)
    ensures
        r == is_subscribed(subscription_view(*subscriptions), message_name@),
{
    match subscriptions {
        None => true,
        Some(names) => {
            let mut i: usize = 0;
            while i < names.len()
                invariant
                    i <= names.len(),
                    subscription_view(*subscriptions) == Some(names@),
                    forall|j: int| 0 <= j < i ==> (#[trigger] names@[j])@ != message_name@,
                decreases names.len() - i,
            {
                if names[i] == *message_name {
                    assert(names@[i as int]@ == message_name@);
                    assert(names_contain(names@, message_name@));
                    return true;
                }
                i = i + 1;
            }
            false
        },
    }
}

/// The client's state after a message: a subscription replaces the previous one
/// (an empty list means everything), joining the raw stream only works when it
/// is enabled, leaving it always works, and a transmit request changes nothing.
pub open spec fn client_after(state: ClientState, msg: ClientMessage, raw_enabled: bool) -> ClientState {
    match msg {
        ClientMessage::Subscribe { message_names } => ClientState {
            subscriptions: if message_names@.len() == 0 { None } else { Some(message_names) },
            raw: state.raw,
        },
        ClientMessage::SubscribeRaw => if raw_enabled {
            ClientState { subscriptions: state.subscriptions, raw: true }
        } else {
            state
        },
        ClientMessage::UnsubscribeRaw => ClientState { subscriptions: state.subscriptions, raw: false },
        ClientMessage::Transmit { .. } => state,
    }
}

/// What the server does after a client message: a subscription is answered with
/// a snapshot, joining the raw stream with a raw snapshot (or nothing when the
/// stream is disabled), and a transmit request is handed on as it came.
pub open spec fn action_for(msg: ClientMessage, raw_enabled: bool) -> ClientAction {
    match msg {
        ClientMessage::Subscribe { .. } => ClientAction::SendSnapshot,
        ClientMessage::SubscribeRaw => if raw_enabled {
            ClientAction::SendRawSnapshot
        } else {
            ClientAction::RawStreamDisabled
        },
        ClientMessage::UnsubscribeRaw => ClientAction::LeftRawStream,
        ClientMessage::Transmit { message_id, data, is_extended } => ClientAction::Transmit(
            CanTransmitRequest { message_id, data, is_extended },
        ),
    }
}

/// Applies a client message to the client's state and says what to do next.
pub fn handle_client_message(state: &mut ClientState, msg: ClientMessage, raw_enabled: bool) -> (action: ClientAction)
    ensures
        *final(state) == client_after(*old(state), msg, raw_enabled),
        action == action_for(msg, raw_enabled),
{
    match msg {
        ClientMessage::Subscribe { message_names } => {
            if message_names.len() == 0 {
                state.subscriptions = None;
            } else {
                state.subscriptions = Some(message_names);
            }
            ClientAction::SendSnapshot
        },
        ClientMessage::SubscribeRaw => {
            if raw_enabled {
                state.raw = true;
                ClientAction::SendRawSnapshot
            } else {
                ClientAction::RawStreamDisabled
            }
        },
        ClientMessage::UnsubscribeRaw => {
            state.raw = false;
            ClientAction::LeftRawStream
        },
        ClientMessage::Transmit { message_id, data, is_extended } => {
            ClientAction::Transmit(CanTransmitRequest { message_id, data, is_extended })
        },
    }
}

/// A new subscription replaces the previous one: subscribing to `first` and then
/// to `second` leaves the client as subscribing to `second` alone would.
pub proof fn lemma_subscription_replaces(state: ClientState, first: Vec<String>, second: Vec<String>, raw_enabled: bool)
    ensures
        client_after(
            client_after(state, ClientMessage::Subscribe { message_names: first }, raw_enabled),
            ClientMessage::Subscribe { message_names: second },
            raw_enabled,
        ) == client_after(state, ClientMessage::Subscribe { message_names: second }, raw_enabled),
{
}

/// Leaving the raw stream undoes joining it: a client that was not in the raw
/// stream is back in its earlier state, whether or not the stream is enabled.
pub proof fn lemma_leaving_raw_stream_undoes_joining(state: ClientState, raw_enabled: bool)
    requires
        !state.raw,
    ensures
        client_after(
            client_after(state, ClientMessage::SubscribeRaw, raw_enabled),
            ClientMessage::UnsubscribeRaw,
            raw_enabled,
        ) == state,
{
}

/// After a subscription to `names`, an update of `name` reaches the client exactly
/// when the list is empty or holds `name`, and the raw-stream flag is untouched.
pub proof fn lemma_subscription_selects(state: ClientState, names: Vec<String>, name: Seq<char>, raw_enabled: bool)
    ensures
        ({
            let after = client_after(state, ClientMessage::Subscribe { message_names: names }, raw_enabled);
            &&& is_subscribed(subscription_view(after.subscriptions), name)
                <==> (names@.len() == 0 || names_contain(names@, name))
            &&& after.raw == state.raw
        }),
{
}

/// The raw-cache key of a frame: the message id, with bit 31 set for an extended
/// frame so that a standard and an extended frame with the same id do not collide.
pub open spec fn raw_key(message_id: u32, is_extended: bool) -> u32 {
    if is_extended { message_id | EXTENDED_FLAG } else { message_id }
}

/// Computes the raw-cache key of a frame (the encoding of `id_to_u32`).
pub fn raw_cache_key(frame: &RawFrame) -> (r: u32)
    ensures
        r == raw_key(frame.message_id, frame.is_extended),
{
    if frame.is_extended {
        frame.message_id | EXTENDED_FLAG
    } else {
        frame.message_id
    }
}

/// The raw-cache key of a frame taken apart by `unpack_id` is the identifier's
/// `id_to_u32` key.
pub proof fn lemma_raw_key_matches_id_key(id: CanId)
    ensures
        raw_key(id_parts(id).0, id_parts(id).1) == id_key(id),
{
}

/// Why a transmit request cannot become a frame.
#[derive(Clone, Debug, PartialEq, Eq, Structural)]
pub enum TransmitError {
    /// More than 8 payload bytes.
    PayloadTooLong { len: usize },
    /// The id does not fit a standard identifier.
    InvalidStandardId { id: u32 },
    /// The id does not fit an extended identifier.
    InvalidExtendedId { id: u32 },
}

/// The identifier that a transmit request asks for, or why there is none: an
/// explicit standard request uses the low 16 bits of the id, and without a flag
/// ids up to `0x7FF` are standard and larger ones extended.
pub open spec fn request_id_spec(message_id: u32, is_extended: Option<bool>) -> Result<CanId, TransmitError> {
    match is_extended {
        Some(true) => if message_id <= MAX_EXTENDED_ID {
            Ok(CanId::Extended(message_id))
        } else {
            Err(TransmitError::InvalidExtendedId { id: message_id })
        },
        Some(false) => if (message_id as u16) <= MAX_STANDARD_ID {
            Ok(CanId::Standard(message_id as u16))
        } else {
            Err(TransmitError::InvalidStandardId { id: message_id })
        },
        None => if message_id <= MAX_STANDARD_ID as u32 {
            Ok(CanId::Standard(message_id as u16))
        } else if message_id <= MAX_EXTENDED_ID {
            Ok(CanId::Extended(message_id))
        } else {
            Err(TransmitError::InvalidExtendedId { id: message_id })
        },
    }
}

/// Every identifier that a transmit request is granted fits its kind.
pub proof fn lemma_request_id_is_valid(message_id: u32, is_extended: Option<bool>)
    ensures
        request_id_spec(message_id, is_extended) matches Ok(id) ==> id.is_valid(),
{
}

/// A transmit message is handed on exactly as it came: whatever the client's
/// state and the configuration, the action carries the message's id, payload
/// and extended flag unchanged, and the client's state is untouched.
pub proof fn lemma_transmit_is_forwarded_unchanged(
    state: ClientState,
    message_id: u32,
    data: Vec<u8>,
    is_extended: Option<bool>,
    raw_enabled: bool,
)
    ensures
        ({
            let msg = ClientMessage::Transmit { message_id, data, is_extended };
            &&& action_for(msg, raw_enabled) matches ClientAction::Transmit(req)
            &&& req.message_id == message_id
            &&& req.data == data
            &&& req.is_extended == is_extended
            &&& client_after(state, msg, raw_enabled) == state
        }),
{
}

/// A granted identifier keeps the requested raw value, except that an explicit
/// standard request keeps only the low 16 bits; an explicit flag decides the
/// kind, and without a flag ids above `0x7FF` are extended.
pub proof fn lemma_request_id_keeps_value(message_id: u32, is_extended: Option<bool>)
    ensures
        request_id_spec(message_id, is_extended) matches Ok(id) ==> {
            &&& is_extended != Some(false) ==> id_parts(id).0 == message_id
            &&& is_extended == Some(false) ==> id_parts(id).0 == (message_id as u16) as u32
            &&& is_extended == Some(true) ==> id_parts(id).1
            &&& is_extended == Some(false) ==> !id_parts(id).1
            &&& is_extended is None ==> (id_parts(id).1 <==> message_id > 0x7FF)
        },
        is_extended != Some(false) && message_id <= 0x1FFF_FFFF && (is_extended is None ==> message_id > 0x7FF)
            ==> request_id_spec(message_id, is_extended) == Ok::<CanId, TransmitError>(CanId::Extended(message_id)),
        is_extended is None && message_id <= 0x7FF
            ==> request_id_spec(message_id, is_extended) == Ok::<CanId, TransmitError>(CanId::Standard(message_id as u16)),
{
}

/// Turns a transmit request into a frame: at most 8 payload bytes and an
/// identifier that fits its kind.
pub fn build_frame_from_request(request: &CanTransmitRequest) -> (r: Result<CanFrame, TransmitError>)
    ensures
        request.data@.len() > MAX_DATA_LEN ==> r == Err::<CanFrame, TransmitError>(
            TransmitError::PayloadTooLong { len: request.data@.len() as usize },
        ),
        request.data@.len() <= MAX_DATA_LEN ==> match request_id_spec(request.message_id, request.is_extended) {
            Ok(id) => (r matches Ok(f) && f.id == id && f.data@ == request.data@),
            Err(e) => r == Err::<CanFrame, TransmitError>(e),
        },
{
    if request.data.len() > MAX_DATA_LEN {
        return Err(TransmitError::PayloadTooLong { len: request.data.len() });
    }
    let id = match request.is_extended {
        Some(true) => match CanId::extended(request.message_id) {
            Some(id) => id,
            None => return Err(TransmitError::InvalidExtendedId { id: request.message_id }),
        },
        Some(false) => match CanId::standard(request.message_id as u16) {
            Some(id) => id,
            None => return Err(TransmitError::InvalidStandardId { id: request.message_id }),
        },
        None => {
            if request.message_id <= MAX_STANDARD_ID as u32 {
                match CanId::standard(request.message_id as u16) {
                    Some(id) => id,
                    None => return Err(TransmitError::InvalidStandardId { id: request.message_id }),
                }
            } else {
                match CanId::extended(request.message_id) {
                    Some(id) => id,
                    None => return Err(TransmitError::InvalidExtendedId { id: request.message_id }),
                }
            }
        },
    };
    match CanFrame::new(id, request.data.as_slice()) {
        Some(frame) => Ok(frame),
        None => Err(TransmitError::PayloadTooLong { len: request.data.len() }),
    }
}

/// The OS error that a SocketCAN write returns when the transmit queue is full.
pub const ENOBUFS: i32 = 105;

/// What the transmitter does after a failed write.
#[derive(Clone, Copy, Debug, PartialEq, Eq, Structural)]
pub enum WriteFailure {
    /// The transmit queue is full: drop this frame and keep going.
    DropFrame,
    /// The link is broken: stop transmitting.
    Stop,
}

/// Decides what a failed write means from its OS error code: a full transmit
/// queue is back-pressure and only drops the frame, anything else stops.
pub fn on_write_error(os_error: Option<i32>) -> (r: WriteFailure)
    ensures
        r == (if os_error == Some(ENOBUFS) { WriteFailure::DropFrame } else { WriteFailure::Stop }),
{
    match os_error {
        Some(code) => if code == ENOBUFS { WriteFailure::DropFrame } else { WriteFailure::Stop },
        None => WriteFailure::Stop,
    }
}

} // verus!
