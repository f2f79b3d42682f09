//! CAN identifiers and frames.
use vstd::prelude::*;

verus! {

/// Largest standard (11-bit) identifier.
pub const MAX_STANDARD_ID: u16 = 0x7FF;

/// Largest extended (29-bit) identifier.
pub const MAX_EXTENDED_ID: u32 = 0x1FFF_FFFF;

/// Flag that marks an extended identifier in a 32-bit key.
pub const EXTENDED_FLAG: u32 = 0x8000_0000;

/// Most data bytes a classic CAN frame carries.
pub const MAX_DATA_LEN: usize = 8;

/// A CAN arbitration identifier.
#[derive(Clone, Copy, Debug, PartialEq, Eq, Structural)]
pub enum CanId {
    /// Standard 11-bit identifier.
    Standard(u16),
    /// Extended 29-bit identifier.
    Extended(u32),
}

impl CanId {
    /// The identifier lies in the range of its kind.
    pub open spec fn is_valid(self) -> bool {
        match self {
            CanId::Standard(raw) => raw <= MAX_STANDARD_ID,
            CanId::Extended(raw) => raw <= MAX_EXTENDED_ID,
        }
    }

    /// Builds a standard identifier; `None` when `raw` exceeds 11 bits.
    pub fn standard(raw: u16) -> (r: Option<CanId>)
        ensures
            r == (if raw <= MAX_STANDARD_ID { Some(CanId::Standard(raw)) } else { None::<CanId> }),
    {
        if raw <= MAX_STANDARD_ID {
            Some(CanId::Standard(raw))
        } else {
            None
        }
    }

    /// Builds an extended identifier; `None` when `raw` exceeds 29 bits.
    pub fn extended(raw: u32) -> (r: Option<CanId>)
        ensures
            r == (if raw <= MAX_EXTENDED_ID { Some(CanId::Extended(raw)) } else { None::<CanId> }),
    {
        if raw <= MAX_EXTENDED_ID {
            Some(CanId::Extended(raw))
        } else {
            None
        }
    }
}

/// The 32-bit key of an identifier: the raw value, with bit 31 set for an
/// extended identifier (the encoding that DBC files use for message ids).
pub open spec fn id_key(id: CanId) -> u32 {
    match id {
        CanId::Standard(raw) => raw as u32,
        CanId::Extended(raw) => raw | EXTENDED_FLAG,
    }
}

/// The raw arbitration value of an identifier and whether it is extended.
pub open spec fn id_parts(id: CanId) -> (u32, bool) {
    match id {
        CanId::Standard(raw) => (raw as u32, false),
        CanId::Extended(raw) => (raw, true),
    }
}

/// Encodes an identifier into its 32-bit key (bit 31 marks an extended id).
pub fn id_to_u32(id: &CanId) -> (r: u32)
    ensures
        r == id_key(*id),
{
    match id {
        CanId::Standard(sid) => *sid as u32,
        CanId::Extended(eid) => *eid | EXTENDED_FLAG,
    }
}

/// Splits an identifier into its raw arbitration value and whether it is
/// extended; unlike [`id_to_u32`] the flag is returned on its own.
pub fn unpack_id(id: &CanId) -> (r: (u32, bool))
    ensures
        r == id_parts(*id),
{
    match id {
        CanId::Standard(s) => (*s as u32, false),
        CanId::Extended(e) => (*e, true),
    }
}

proof fn lemma_flag_injective(a: u32, b: u32)
    by (bit_vector)
    requires
        a <= 0x1FFF_FFFF,
        b <= 0x1FFF_FFFF,
    ensures
        (a | 0x8000_0000u32) == (b | 0x8000_0000u32) ==> a == b,
        (a | 0x8000_0000u32) >= 0x8000_0000u32,
{
}

/// Two valid identifiers with the same key are the same identifier: a standard
/// and an extended identifier that share a raw value never collide.
pub proof fn lemma_id_key_injective(a: CanId, b: CanId)
    requires
        a.is_valid(),
        b.is_valid(),
        id_key(a) == id_key(b),
    ensures
        a == b,
{
    match (a, b) {
        (CanId::Extended(x), CanId::Extended(y)) => lemma_flag_injective(x, y),
        (CanId::Extended(x), CanId::Standard(_)) => lemma_flag_injective(x, x),
        (CanId::Standard(_), CanId::Extended(y)) => lemma_flag_injective(y, y),
        _ => {},
    }
}

/// The key keeps the raw value in its low 31 bits and says in bit 31 whether the
/// identifier is extended, so splitting and keying agree.
pub proof fn lemma_id_key_from_parts(id: CanId)
    requires
        id.is_valid(),
    ensures
        id_key(id) == (if id_parts(id).1 { id_parts(id).0 | EXTENDED_FLAG } else { id_parts(id).0 }),
        (id_key(id) >= EXTENDED_FLAG) == id_parts(id).1,
{
    match id {
        CanId::Extended(x) => lemma_flag_injective(x, x),
        _ => {},
    }
}

/// A received or transmitted classic CAN frame.
#[derive(Clone, Debug)]
pub struct CanFrame {
    pub id: CanId,
    pub data: Vec<u8>,
}

impl CanFrame {
    /// Builds a frame; `None` when the payload is longer than 8 bytes.
    pub fn new(id: CanId, data: &[u8]) -> (r: Option<CanFrame>)
        ensures
            data@.len() <= MAX_DATA_LEN ==> (r matches Some(f) && f.id == id && f.data@ == data@),
            data@.len() > MAX_DATA_LEN ==> r is None,
    {
        if data.len() <= MAX_DATA_LEN {
            Some(CanFrame { id, data: slice_to_vec(data) })
        } else {
            None
        }
    }
}

fn slice_to_vec(data: &[u8]) -> (r: Vec<u8>)
    ensures
        r@ == data@,
{
    let mut v: Vec<u8> = Vec::new();
    let mut i: usize = 0;
    while i < data.len()
        invariant
            i <= data.len(),
            v@ == data@.subrange(0, i as int),
        decreases data.len() - i,
    {
        v.push(data[i]);
        i = i + 1;
        assert(v@ =~= data@.subrange(0, i as int));
    }
    assert(v@ =~= data@);
    v
}

} // verus!
