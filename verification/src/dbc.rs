//! Decoding CAN frames against the message definitions of a DBC database.
use vstd::prelude::*;
use std::collections::HashMap;
use crate::frame::{CanFrame, CanId, id_key, id_to_u32, MAX_DATA_LEN};
use crate::signal::{ByteOrder, ValueType, DecodeError, decode_signal_value, decode_signal_spec};
use crate::text::{chars_of, ends_with, ends_with_spec, decimal_string, decimal_spec};
use vstd::string::StringExecFns;

verus! {

broadcast use vstd::std_specs::hash::group_hash_axioms;

#[verifier::external_type_specification]
#[verifier::external_body]
pub struct ExDbcError(can_dbc::DbcError);

/// A signal of a message definition. Factor and offset are kept as the bit
/// patterns of their `f64` values; applying them is the caller's part.
#[derive(Clone, Debug)]
pub struct SignalDef {
    pub name: String,
    pub start_bit: u64,
    pub size: u64,
    pub byte_order: ByteOrder,
    pub value_type: ValueType,
    pub factor_bits: u64,
    pub offset_bits: u64,
    pub unit: String,
}

/// A message definition: its 32-bit id (bit 31 set for an extended id), name and signals.
#[derive(Clone, Debug)]
pub struct MessageDef {
    pub id: u32,
    pub name: String,
    pub signals: Vec<SignalDef>,
}

/// The message definitions that `can_dbc` reads from a DBC text, or `None` when
/// it refuses the text.
pub uninterp spec fn parsed_dbc(text: Seq<char>) -> Option<Seq<MessageDef>>;

/// `can_dbc::Dbc::try_from`: parses a DBC text and hands out its messages, each
/// with `MessageId::raw` as id and its signals' fields converted one for one.
/// The contract only ties the result to the text; what the parser accepts is not stated.
#[verifier::external_body]
fn parse_dbc(text: &str) -> (r: Result<Vec<MessageDef>, can_dbc::DbcError>)
    ensures
        r is Ok <==> parsed_dbc(text@) is Some,
        r matches Ok(v) ==> parsed_dbc(text@) == Some(v@),
{
    let dbc = can_dbc::Dbc::try_from(text)?;
    Ok(dbc.messages.iter().map(|m| MessageDef { id: m.id.raw(), name: m.name.clone(),
        signals: m.signals.iter().map(|s| SignalDef { name: s.name.clone(), start_bit: s.start_bit, size: s.size,
            byte_order: match s.byte_order { can_dbc::ByteOrder::LittleEndian => ByteOrder::LittleEndian,
                can_dbc::ByteOrder::BigEndian => ByteOrder::BigEndian },
            value_type: match s.value_type { can_dbc::ValueType::Signed => ValueType::Signed,
                can_dbc::ValueType::Unsigned => ValueType::Unsigned },
            factor_bits: s.factor.to_bits(), offset_bits: s.offset.to_bits(), unit: s.unit.clone() }).collect() }).collect())
}

/// Name endings that mark an error frame.
pub const ERROR_SUFFIXES: [&'static str; 2] = ["_NODE", "_EMCY"];

/// A message is an error frame when its name ends with one of [`ERROR_SUFFIXES`].
pub open spec fn is_error_name(name: Seq<char>) -> bool {
    exists|i: int| 0 <= i < ERROR_SUFFIXES@.len() && ends_with_spec(name, (#[trigger] ERROR_SUFFIXES@[i])@)
}

/// Whether a message of this name is an error frame.
pub fn is_error_frame(msg_name: &str) -> (r: bool)
    ensures
        r == is_error_name(msg_name@),
{
    let name = chars_of(msg_name);
    let mut i: usize = 0;
    while i < ERROR_SUFFIXES.len()
        invariant
            i <= ERROR_SUFFIXES@.len(),
            name@ == msg_name@,
            forall|j: int| 0 <= j < i ==> !ends_with_spec(msg_name@, (#[trigger] ERROR_SUFFIXES@[j])@),
        decreases ERROR_SUFFIXES.len() - i,
    {
        let suffix = chars_of(ERROR_SUFFIXES[i]);
        if ends_with(name.as_slice(), suffix.as_slice()) {
            assert(ends_with_spec(msg_name@, ERROR_SUFFIXES@[i as int]@));
            return true;
        }
        i = i + 1;
    }
    false
}

/// The id index that a list of messages gives: each id points at its message's
/// position and whether the message is an error frame; when two messages share
/// an id the later one wins.
pub open spec fn index_map_spec(messages: Seq<MessageDef>) -> Map<u32, (usize, bool)>
    decreases messages.len(),
{
    if messages.len() == 0 {
        Map::empty()
    } else {
        let last = messages.last();
        index_map_spec(messages.drop_last()).insert(
            last.id,
            ((messages.len() - 1) as usize, is_error_name(last.name@)),
        )
    }
}

/// The id index of a message list maps exactly the ids of the messages, each to
/// the position of the last message with that id and to whether that message is
/// an error frame.
pub proof fn lemma_index_points_to_last_message(messages: Seq<MessageDef>, id: u32)
    requires
        messages.len() <= usize::MAX,
    ensures
        index_map_spec(messages).contains_key(id) <==> exists|i: int| 0 <= i < messages.len() && (#[trigger] messages[i]).id == id,
        index_map_spec(messages).contains_key(id) ==> {
            let (i, flag) = index_map_spec(messages)[id];
            &&& i < messages.len()
            &&& messages[i as int].id == id
            &&& (forall|j: int| i < j < messages.len() ==> (#[trigger] messages[j]).id != id)
            &&& flag == is_error_name(messages[i as int].name@)
        },
    decreases messages.len(),
{
    if messages.len() > 0 {
        let prefix = messages.drop_last();
        lemma_index_points_to_last_message(prefix, id);
        if messages.last().id != id {
            if index_map_spec(prefix).contains_key(id) {
                let i = index_map_spec(prefix)[id].0;
                assert(messages[i as int] == prefix[i as int]);
            }
            assert forall|i: int| 0 <= i < messages.len() && (#[trigger] messages[i]).id == id implies
                (0 <= i < prefix.len() && prefix[i].id == id) by {
                if i == messages.len() - 1 {
                    assert(messages[i] == messages.last());
                } else {
                    assert(prefix[i] == messages[i]);
                }
            }
            if exists|i: int| 0 <= i < prefix.len() && (#[trigger] prefix[i]).id == id {
                let i = choose|i: int| 0 <= i < prefix.len() && (#[trigger] prefix[i]).id == id;
                assert(messages[i] == prefix[i]);
            }
        } else {
            assert(messages[messages.len() - 1] == messages.last());
        }
    }
}

/// A signal as decoded from a frame: its raw number, the factor and offset to
/// apply to it, and whether its unit comes from the error-code table.
#[derive(Clone, Debug)]
pub struct DecodedSignal {
    pub name: String,
    pub raw: i128,
    pub factor_bits: u64,
    pub offset_bits: u64,
    pub unit: String,
    /// This signal carries the error code of an error frame.
    pub error_code: bool,
}

/// A decoded frame: the message name and one entry per signal of the message.
#[derive(Clone, Debug)]
pub struct DecodedMessage {
    pub name: String,
    pub signals: Vec<DecodedSignal>,
}

/// Why loading a database failed.
#[derive(Debug)]
pub enum DbcLoadError {
    /// `can_dbc` refused the text.
    Parse(can_dbc::DbcError),
}

/// A DBC database ready for decoding.
pub struct DbcHandler {
    pub messages: Vec<MessageDef>,
    /// Message id to (position in `messages`, is an error frame).
    pub message_index_by_id: HashMap<u32, (usize, bool)>,
    /// Error code to name; `None` when error mapping is off.
    pub error_map: Option<HashMap<u32, String>>,
}

/// The result of decoding one signal of a message.
pub open spec fn signal_spec(s: SignalDef, data: Seq<u8>) -> Result<i128, DecodeError> {
    decode_signal_spec(s.start_bit, s.size, s.byte_order, s.value_type, data)
}

/// The error of the first signal, in order, that does not decode.
pub open spec fn first_signal_error(signals: Seq<SignalDef>, data: Seq<u8>) -> Option<DecodeError>
    decreases signals.len(),
{
    if signals.len() == 0 {
        None
    } else {
        match first_signal_error(signals.drop_last(), data) {
            Some(e) => Some(e),
            None => match signal_spec(signals.last(), data) {
                Err(e) => Some(e),
                Ok(_) => None,
            },
        }
    }
}

/// A decoded signal is its definition decoded over `data`.
pub open spec fn decoded_from(out: DecodedSignal, def: SignalDef, data: Seq<u8>, error_code: bool) -> bool {
    &&& out.name@ == def.name@
    &&& signal_spec(def, data) == Ok::<i128, DecodeError>(out.raw)
    &&& out.factor_bits == def.factor_bits
    &&& out.offset_bits == def.offset_bits
    &&& out.unit@ == def.unit@
    &&& out.error_code == error_code
}

/// Names of a table, as character sequences.
pub open spec fn names_view(m: Map<u32, String>) -> Map<u32, Seq<char>> {
    m.map_values(|s: String| s@)
}

/// Builds an error-code table from `(code, name)` pairs; later pairs win.
pub open spec fn entries_map(entries: Seq<(u32, &str)>) -> Map<u32, Seq<char>>
    decreases entries.len(),
{
    if entries.len() == 0 {
        Map::empty()
    } else {
        entries_map(entries.drop_last()).insert(entries.last().0, entries.last().1@)
    }
}

/// An error-code table holding the given pairs.
pub fn error_map_of(entries: &[(u32, &str)]) -> (r: Option<HashMap<u32, String>>)
    ensures
        r matches Some(m) && names_view(m@) == entries_map(entries@),
{
    let mut m: HashMap<u32, String> = HashMap::new();
    let mut i: usize = 0;
    assert(entries@.take(0) =~= Seq::<(u32, &str)>::empty());
    assert(names_view(m@) =~= Map::<u32, Seq<char>>::empty());
    while i < entries.len()
        invariant
            i <= entries.len(),
            names_view(m@) == entries_map(entries@.take(i as int)),
        decreases entries.len() - i,
    {
        let (k, v) = entries[i];
        let ghost before = m@;
        m.insert(k, String::from_str(v));
        assert(entries@.take(i + 1).drop_last() =~= entries@.take(i as int));
        assert(names_view(m@) =~= names_view(before).insert(k, v@));
        i = i + 1;
    }
    assert(entries@.take(entries@.len() as int) =~= entries@);
    Some(m)
}

impl DbcHandler {
    /// What looking up a frame gives: its message's position and error-frame flag,
    /// or the error that stops decoding before any signal is read.
    pub open spec fn lookup_spec(&self, frame: CanFrame) -> Result<(usize, bool), DecodeError> {
        let key = id_key(frame.id);
        if frame.data@.len() > MAX_DATA_LEN {
            Err(DecodeError::FrameTooLong { id: frame.id, data_len: frame.data@.len() as usize })
        } else if !self.message_index_by_id@.contains_key(key) {
            Err(DecodeError::NoMessageDefinition { id: frame.id })
        } else if self.message_index_by_id@[key].0 >= self.messages@.len() {
            Err(DecodeError::MessageIndexOutOfBounds { index: self.message_index_by_id@[key].0, id: frame.id })
        } else {
            Ok(self.message_index_by_id@[key])
        }
    }

    /// A handler over these messages with the id index built from them.
    pub fn from_messages(messages: Vec<MessageDef>, error_map: Option<HashMap<u32, String>>) -> (r: DbcHandler)
        ensures
            r.messages@ == messages@,
            r.message_index_by_id@ == index_map_spec(messages@),
            r.error_map == error_map,
    {
        let mut index: HashMap<u32, (usize, bool)> = HashMap::new();
        let mut i: usize = 0;
        assert(messages@.take(0) =~= Seq::<MessageDef>::empty());
        while i < messages.len()
            invariant
                i <= messages.len(),
                index@ == index_map_spec(messages@.take(i as int)),
            decreases messages.len() - i,
        {
            let flag = is_error_frame(messages[i].name.as_str());
            index.insert(messages[i].id, (i, flag));
            assert(messages@.take(i + 1).drop_last() =~= messages@.take(i as int));
            i = i + 1;
        }
        assert(messages@.take(messages@.len() as int) =~= messages@);
        DbcHandler { messages, message_index_by_id: index, error_map }
    }

    /// Parses a DBC text and builds a handler over its messages.
    pub fn from_dbc_text(text: &str, error_map: Option<HashMap<u32, String>>) -> (r: Result<DbcHandler, DbcLoadError>)
        ensures
            r is Ok <==> parsed_dbc(text@) is Some,
            r matches Ok(h) ==> {
                &&& parsed_dbc(text@) == Some(h.messages@)
                &&& h.message_index_by_id@ == index_map_spec(h.messages@)
                &&& h.error_map == error_map
            },
    {
        match parse_dbc(text) {
            Ok(messages) => Ok(DbcHandler::from_messages(messages, error_map)),
            Err(e) => Err(DbcLoadError::Parse(e)),
        }
    }

    /// `out` is the decoding of `frame`: the frame's message is found, and `out`
    /// carries its name and one entry per signal, decoded over the payload; the
    /// first entry is marked as the error code when error mapping is on and the
    /// message is an error frame.
    pub open spec fn decodes_to(&self, frame: CanFrame, out: DecodedMessage) -> bool {
        &&& self.lookup_spec(frame) is Ok
        &&& {
            let (idx, is_error) = self.lookup_spec(frame)->Ok_0;
            let msg = self.messages@[idx as int];
            &&& out.name@ == msg.name@
            &&& out.signals@.len() == msg.signals@.len()
            &&& forall|i: int| 0 <= i < msg.signals@.len() ==> decoded_from(
                #[trigger] out.signals@[i],
                msg.signals@[i],
                frame.data@,
                i == 0 && is_error && self.error_map is Some,
            )
        }
    }

    /// The unit shown for a decoded signal whose scaled value rounds to `code`.
    pub open spec fn unit_spec(&self, signal: DecodedSignal, code: u32) -> Seq<char> {
        match self.error_map {
            Some(m) => if signal.error_code && m@.contains_key(code) { m@[code]@ } else { signal.unit@ },
            None => signal.unit@,
        }
    }

    /// Decodes a frame: its message is found by id, and every signal of the
    /// message is decoded in order. Payloads of 0 to 8 bytes are accepted. When
    /// error mapping is on and the message is an error frame, its first signal
    /// is marked as carrying the error code.
    pub fn decode(&self, frame: &CanFrame) -> (r: Result<DecodedMessage, DecodeError>)
        ensures
            match self.lookup_spec(*frame) {
                Err(e) => r == Err::<DecodedMessage, DecodeError>(e),
                Ok((idx, is_error)) => {
                    let msg = self.messages@[idx as int];
                    match first_signal_error(msg.signals@, frame.data@) {
                        Some(e) => r == Err::<DecodedMessage, DecodeError>(e),
                        None => (r matches Ok(out) && self.decodes_to(*frame, out)),
                    }
                },
            },
    {
        let key = id_to_u32(&frame.id);
        if frame.data.len() > MAX_DATA_LEN {
            return Err(DecodeError::FrameTooLong { id: frame.id, data_len: frame.data.len() });
        }
        let (idx, is_error_frame) = match self.message_index_by_id.get(&key) {
            Some(entry) => *entry,
            None => return Err(DecodeError::NoMessageDefinition { id: frame.id }),
        };
        if idx >= self.messages.len() {
            return Err(DecodeError::MessageIndexOutOfBounds { index: idx, id: frame.id });
        }
        let message = &self.messages[idx];
        let map_first = self.error_map.is_some() && is_error_frame;
        let mut results: Vec<DecodedSignal> = Vec::new();
        let mut i: usize = 0;
        assert(message.signals@.take(0) =~= Seq::<SignalDef>::empty());
        while i < message.signals.len()
            invariant
                i <= message.signals@.len(),
                self.lookup_spec(*frame) == Ok::<(usize, bool), DecodeError>((idx, is_error_frame)),
                *message == self.messages@[idx as int],
                map_first == (self.error_map is Some && is_error_frame),
                first_signal_error(message.signals@.take(i as int), frame.data@) is None,
                results@.len() == i,
                forall|j: int| 0 <= j < i ==> decoded_from(
                    #[trigger] results@[j],
                    message.signals@[j],
                    frame.data@,
                    j == 0 && map_first,
                ),
            decreases message.signals@.len() - i,
        {
            let signal = &message.signals[i];
            let ghost upto = message.signals@.take(i + 1);
            assert(upto.drop_last() =~= message.signals@.take(i as int));
            assert(upto.last() == *signal);
            let raw = match decode_signal_value(
                signal.start_bit,
                signal.size,
                signal.byte_order,
                signal.value_type,
                frame.data.as_slice(),
            ) {
                Ok(v) => v,
                Err(e) => {
                    proof {
                        assert(first_signal_error(upto, frame.data@) == Some(e));
                        lemma_first_error_prefix(message.signals@, frame.data@, i + 1);
                    }
                    return Err(e);
                },
            };
            results.push(DecodedSignal {
                name: signal.name.clone(),
                raw,
                factor_bits: signal.factor_bits,
                offset_bits: signal.offset_bits,
                unit: signal.unit.clone(),
                error_code: i == 0 && map_first,
            });
            i = i + 1;
        }
        assert(message.signals@.take(message.signals@.len() as int) =~= message.signals@);
        Ok(DecodedMessage { name: message.name.clone(), signals: results })
    }

    /// The unit to show for a decoded signal whose scaled value rounds to `code`:
    /// the error name from the table for an error-code signal whose code is known,
    /// and the signal's own unit otherwise.
    pub fn resolve_unit(&self, signal: &DecodedSignal, code: u32) -> (r: String)
        ensures
            r@ == self.unit_spec(*signal, code),
    {
        if signal.error_code {
            if let Some(m) = &self.error_map {
                if let Some(name) = m.get(&code) {
                    return name.clone();
                }
            }
        }
        signal.unit.clone()
    }
}

/// A handler whose index was built from its messages (as `from_messages` and
/// `from_dbc_text` build it) finds, for a frame of at most 8 bytes, the last
/// message with the frame's key, flagged as an error frame by its name; it
/// refuses the frame only when no message has that key, and never points past
/// the message list.
pub proof fn lemma_lookup_finds_last_message(handler: DbcHandler, frame: CanFrame)
    requires
        handler.message_index_by_id@ == index_map_spec(handler.messages@),
        frame.data@.len() <= MAX_DATA_LEN,
    ensures
        handler.lookup_spec(frame) is Ok <==> exists|i: int|
            0 <= i < handler.messages@.len() && (#[trigger] handler.messages@[i]).id == id_key(frame.id),
        handler.lookup_spec(frame) is Err ==> handler.lookup_spec(frame) == Err::<(usize, bool), DecodeError>(
            DecodeError::NoMessageDefinition { id: frame.id },
        ),
        handler.lookup_spec(frame) matches Ok((i, flag)) ==> {
            &&& i < handler.messages@.len()
            &&& handler.messages@[i as int].id == id_key(frame.id)
            &&& (forall|j: int| i < j < handler.messages@.len() ==> (#[trigger] handler.messages@[j]).id != id_key(frame.id))
            &&& flag == is_error_name(handler.messages@[i as int].name@)
        },
{
    assert(handler.messages@.len() == handler.messages.len());
    lemma_index_points_to_last_message(handler.messages@, id_key(frame.id));
}

/// The units of a decoded frame: the first signal of an error frame shows the
/// table's name for its code when error mapping is on and the table has the
/// code, and its DBC unit otherwise; every other signal shows its DBC unit.
pub proof fn lemma_decoded_units(handler: DbcHandler, frame: CanFrame, out: DecodedMessage, i: int, code: u32)
    requires
        handler.decodes_to(frame, out),
        0 <= i < out.signals@.len(),
    ensures
        ({
            let (idx, is_error) = handler.lookup_spec(frame)->Ok_0;
            let dbc_unit = handler.messages@[idx as int].signals@[i].unit@;
            handler.unit_spec(out.signals@[i], code) == match handler.error_map {
                Some(m) => if i == 0 && is_error && m@.contains_key(code) { m@[code]@ } else { dbc_unit },
                None => dbc_unit,
            }
        }),
{
    let (idx, is_error) = handler.lookup_spec(frame)->Ok_0;
    assert(decoded_from(
        out.signals@[i],
        handler.messages@[idx as int].signals@[i],
        frame.data@,
        i == 0 && is_error && handler.error_map is Some,
    ));
}

/// Once a prefix of the signals holds an error, the first error of the whole
/// list is that prefix's first error.
proof fn lemma_first_error_prefix(signals: Seq<SignalDef>, data: Seq<u8>, k: int)
    requires
        0 <= k <= signals.len(),
        first_signal_error(signals.take(k), data) is Some,
    ensures
        first_signal_error(signals, data) == first_signal_error(signals.take(k), data),
    decreases signals.len() - k,
{
    if k == signals.len() {
        assert(signals.take(k) =~= signals);
    } else {
        assert(signals.take(k + 1).drop_last() =~= signals.take(k));
        lemma_first_error_prefix(signals, data, k + 1);
    }
}

/// Text of a decoding error, as shown to the user.
pub open spec fn decode_error_text(e: DecodeError) -> Seq<char> {
    match e {
        DecodeError::InvalidSignalSize { size } => if size == 0 {
            "Invalid signal size: 0"@
        } else {
            "Invalid signal size: "@ + decimal_spec(size as nat) + " (max 64)"@
        },
        DecodeError::NotEnoughData { byte_order, start_bit, size_bits, data_len } =>
            (match byte_order {
                ByteOrder::LittleEndian => "Not enough data to decode little-endian signal: start_bit="@,
                ByteOrder::BigEndian => "Not enough data to decode big-endian signal: start_bit="@,
            }) + decimal_spec(start_bit as nat) + ", size_bits="@ + decimal_spec(size_bits as nat)
                + ", data_len_bytes="@ + decimal_spec(data_len as nat),
        DecodeError::FrameTooLong { id, data_len } =>
            "Error: Frame ID: "@ + id_debug_spec(id) + " is either empty or data exceeds 8 bytes!"@,
        DecodeError::NoMessageDefinition { id } =>
            "No message definition found for frame ID: "@ + id_debug_spec(id),
        DecodeError::MessageIndexOutOfBounds { index, id } =>
            "Message index "@ + decimal_spec(index as nat) + " out of bounds for frame ID: "@
                + id_debug_spec(id),
    }
}

/// The debug form of an `embedded_can` identifier with the same kind and raw
/// value, as in `Standard(StandardId(100))` or `Extended(ExtendedId(291))`.
pub open spec fn id_debug_spec(id: CanId) -> Seq<char> {
    match id {
        CanId::Standard(raw) => "Standard(StandardId("@ + decimal_spec(raw as nat) + "))"@,
        CanId::Extended(raw) => "Extended(ExtendedId("@ + decimal_spec(raw as nat) + "))"@,
    }
}

/// Writes an identifier in its debug form.
pub fn id_debug_text(id: &CanId) -> (r: String)
    ensures
        r@ == id_debug_spec(*id),
{
    let mut s = match id {
        CanId::Standard(_) => String::from_str("Standard(StandardId("),
        CanId::Extended(_) => String::from_str("Extended(ExtendedId("),
    };
    let raw: u64 = match id {
        CanId::Standard(r) => *r as u64,
        CanId::Extended(r) => *r as u64,
    };
    s.append(decimal_string(raw).as_str());
    s.append("))");
    s
}

impl DecodeError {
    /// The text of the error.
    pub fn message(&self) -> (r: String)
        ensures
            r@ == decode_error_text(*self),
    {
        match self {
            DecodeError::InvalidSignalSize { size } => {
                if *size == 0 {
                    String::from_str("Invalid signal size: 0")
                } else {
                    let mut s = String::from_str("Invalid signal size: ");
                    s.append(decimal_string(*size).as_str());
                    s.append(" (max 64)");
                    s
                }
            },
            DecodeError::NotEnoughData { byte_order, start_bit, size_bits, data_len } => {
                let mut s = match byte_order {
                    ByteOrder::LittleEndian => String::from_str("Not enough data to decode little-endian signal: start_bit="),
                    ByteOrder::BigEndian => String::from_str("Not enough data to decode big-endian signal: start_bit="),
                };
                s.append(decimal_string(*start_bit as u64).as_str());
                s.append(", size_bits=");
                s.append(decimal_string(*size_bits as u64).as_str());
                s.append(", data_len_bytes=");
                s.append(decimal_string(*data_len as u64).as_str());
                s
            },
            DecodeError::FrameTooLong { id, data_len: _ } => {
                let mut s = String::from_str("Error: Frame ID: ");
                s.append(id_debug_text(id).as_str());
                s.append(" is either empty or data exceeds 8 bytes!");
                s
            },
            DecodeError::NoMessageDefinition { id } => {
                let mut s = String::from_str("No message definition found for frame ID: ");
                s.append(id_debug_text(id).as_str());
                s
            },
            DecodeError::MessageIndexOutOfBounds { index, id } => {
                let mut s = String::from_str("Message index ");
                s.append(decimal_string(*index as u64).as_str());
                s.append(" out of bounds for frame ID: ");
                s.append(id_debug_text(id).as_str());
                s
            },
        }
    }
}

} // verus!
