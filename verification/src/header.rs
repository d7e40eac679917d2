//! Record framing: every record on the wire is a fixed-size kind header
//! followed by the kind-specific payload bytes. The header has the same
//! size for every kind, so a peer can classify a record in O(1) before
//! paying for full payload deserialization, and wire-size accounting is
//! uniform across kinds.

use vstd::prelude::*;
use crate::address::NetworkAddress;

verus! {

/// Errors of record framing: a header that cannot be parsed is distinct
/// from a record too short to carry any payload.
#[derive(Clone, Copy, PartialEq, Eq, Structural, Debug)]
pub enum Error {
    RecordHeaderParsingFailed,
    RecordParsingFailed,
}

/// Indicates the type of the record content. For mutable-address records
/// the current content hash is tracked alongside, so replication can
/// compare freshness.
#[derive(Clone, Copy, PartialEq, Eq, Structural, Hash, Debug)]
pub enum RecordType {
    Chunk,
    Scratchpad,
    NonChunk(u64),
}

/// Closed enumeration of record kinds; each implies a consistency policy.
#[derive(Clone, Copy, PartialEq, Eq, Structural, Debug)]
pub enum RecordKind {
    Chunk,
    ChunkWithPayment,
    Spend,
    Register,
    RegisterWithPayment,
    Scratchpad,
    ScratchpadWithPayment,
}

/// A record as stored locally and sent on the wire.
#[derive(Clone, PartialEq, Eq, Debug)]
pub struct Record {
    pub key: NetworkAddress,
    pub value: Vec<u8>,
}

/// The typed header prefixed to every record's payload.
#[derive(Clone, Copy, PartialEq, Eq, Structural, Debug)]
pub struct RecordHeader {
    pub kind: RecordKind,
}

/// First byte of every encoded header: the tag of a one-element sequence,
/// identical for all kinds.
pub const HEADER_TAG: u8 = 0x91;

/// Position of each kind in the wire encoding's second byte.
pub open spec fn kind_index(k: RecordKind) -> u8 {
    match k {
        RecordKind::Chunk => 0,
        RecordKind::ChunkWithPayment => 1,
        RecordKind::Spend => 2,
        RecordKind::Register => 3,
        RecordKind::RegisterWithPayment => 4,
        RecordKind::Scratchpad => 5,
        RecordKind::ScratchpadWithPayment => 6,
    }
}

/// The kind encoded at a given index.
pub open spec fn index_kind(i: u8) -> RecordKind
    recommends
        i <= 6,
{
    if i == 0 {
        RecordKind::Chunk
    } else if i == 1 {
        RecordKind::ChunkWithPayment
    } else if i == 2 {
        RecordKind::Spend
    } else if i == 3 {
        RecordKind::Register
    } else if i == 4 {
        RecordKind::RegisterWithPayment
    } else if i == 5 {
        RecordKind::Scratchpad
    } else {
        RecordKind::ScratchpadWithPayment
    }
}

/// The two bytes that encode a kind's header.
pub open spec fn header_bytes(k: RecordKind) -> Seq<u8> {
    seq![HEADER_TAG, kind_index(k)]
}

/// The kind encoded at the front of the given bytes, if any; bytes past
/// the fixed-size header are ignored.
pub open spec fn parse_header(bytes: Seq<u8>) -> Option<RecordKind> {
    if bytes.len() >= 2 && bytes[0] == HEADER_TAG && bytes[1] <= 6 {
        Some(index_kind(bytes[1]))
    } else {
        None
    }
}

/// Parses a header from its two leading bytes.
fn parse_two(b0: u8, b1: u8) -> (r: Result<RecordHeader, Error>)
    ensures
        parse_header(seq![b0, b1]) matches Some(k) ==> r == Ok::<RecordHeader, Error>(
            RecordHeader { kind: k },
        ),
        parse_header(seq![b0, b1]) is None ==> r == Err::<RecordHeader, Error>(
            Error::RecordHeaderParsingFailed,
        ),
{
    if b0 != HEADER_TAG {
        return Err(Error::RecordHeaderParsingFailed);
    }
    let kind = if b1 == 0 {
        RecordKind::Chunk
    } else if b1 == 1 {
        RecordKind::ChunkWithPayment
    } else if b1 == 2 {
        RecordKind::Spend
    } else if b1 == 3 {
        RecordKind::Register
    } else if b1 == 4 {
        RecordKind::RegisterWithPayment
    } else if b1 == 5 {
        RecordKind::Scratchpad
    } else if b1 == 6 {
        RecordKind::ScratchpadWithPayment
    } else {
        return Err(Error::RecordHeaderParsingFailed);
    };
    Ok(RecordHeader { kind })
}

impl RecordHeader {
    /// Size in bytes of every encoded header, regardless of kind.
    pub const SIZE: usize = 2;

    /// Encodes the header alone: always exactly `SIZE` bytes.
    pub fn try_serialize(self) -> (r: Result<Vec<u8>, Error>)
        ensures
            r matches Ok(b) && b@ == header_bytes(self.kind),
    {
        let mut b: Vec<u8> = Vec::new();
        b.push(HEADER_TAG);
        let idx: u8 = match self.kind {
            RecordKind::Chunk => 0,
            RecordKind::ChunkWithPayment => 1,
            RecordKind::Spend => 2,
            RecordKind::Register => 3,
            RecordKind::RegisterWithPayment => 4,
            RecordKind::Scratchpad => 5,
            RecordKind::ScratchpadWithPayment => 6,
        };
        b.push(idx);
        proof {
            assert(b@ =~= header_bytes(self.kind));
        }
        Ok(b)
    }

    /// Decodes a header from the front of the given bytes; bytes past the
    /// fixed header size are ignored.
    pub fn try_deserialize(bytes: &[u8]) -> (r: Result<RecordHeader, Error>)
        ensures
            parse_header(bytes@) matches Some(k) ==> r == Ok::<RecordHeader, Error>(
                RecordHeader { kind: k },
            ),
            parse_header(bytes@) is None ==> r == Err::<RecordHeader, Error>(
                Error::RecordHeaderParsingFailed,
            ),
    {
        if bytes.len() < 2 {
            return Err(Error::RecordHeaderParsingFailed);
        }
        let b0 = bytes[0];
        let b1 = bytes[1];
        proof {
            assert(parse_header(bytes@) == parse_header(seq![b0, b1]));
        }
        parse_two(b0, b1)
    }

    /// Reads the header of a record; a record must carry at least one
    /// payload byte after the header to be well-formed.
    pub fn from_record(record: &Record) -> (r: Result<RecordHeader, Error>)
        ensures
            r is Ok <==> record.value@.len() >= 3 && parse_header(record.value@) is Some,
            r matches Ok(h) ==> parse_header(record.value@) == Some(h.kind),
            r is Err ==> r == Err::<RecordHeader, Error>(Error::RecordHeaderParsingFailed),
    {
        if record.value.len() < 3 {
            return Err(Error::RecordHeaderParsingFailed);
        }
        let b0 = record.value[0];
        let b1 = record.value[1];
        proof {
            assert(parse_header(record.value@) == parse_header(seq![b0, b1]));
        }
        parse_two(b0, b1)
    }

    /// Whether a record's header classifies it as an immutable chunk.
    pub fn is_record_of_type_chunk(record: &Record) -> (r: Result<bool, Error>)
        ensures
            r is Ok <==> record.value@.len() >= 3 && parse_header(record.value@) is Some,
            r matches Ok(b) ==> b == (parse_header(record.value@) == Some(RecordKind::Chunk)),
    {
        match Self::from_record(record) {
            Ok(header) => Ok(match header.kind {
                RecordKind::Chunk => true,
                _ => false,
            }),
            Err(e) => Err(e),
        }
    }
}

/// Frames payload bytes for the wire: the kind's fixed-size header
/// immediately followed by the payload.
pub fn try_serialize_record(data: &Vec<u8>, record_kind: RecordKind) -> (r: Result<
    Vec<u8>,
    Error,
>)
    ensures
        r matches Ok(v) && v@ == header_bytes(record_kind) + data@,
{
    let header = RecordHeader { kind: record_kind };
    let mut v = match header.try_serialize() {
        Ok(b) => b,
        Err(e) => {
            return Err(e);
        },
    };
    let mut i: usize = 0;
    while i < data.len()
        invariant
            i <= data@.len(),
            v@ == header_bytes(record_kind) + data@.take(i as int),
        decreases data.len() - i,
    {
        let x = data[i];
        v.push(x);
        proof {
            assert((header_bytes(record_kind) + data@.take(i as int)).push(data@[i as int])
                =~= header_bytes(record_kind) + data@.take(i + 1));
        }
        i += 1;
    }
    proof {
        assert(header_bytes(record_kind) + data@.take(data@.len() as int) =~= header_bytes(
            record_kind,
        ) + data@);
    }
    Ok(v)
}

/// Recovers the payload bytes of a framed record, without parsing them:
/// callers decode the payload only after the header told them the kind.
pub fn try_deserialize_record(record: &Record) -> (r: Result<Vec<u8>, Error>)
    ensures
        record.value@.len() > 2 ==> (r matches Ok(p) && p@ == record.value@.skip(2)),
        record.value@.len() <= 2 ==> r == Err::<Vec<u8>, Error>(Error::RecordParsingFailed),
{
    if record.value.len() <= 2 {
        return Err(Error::RecordParsingFailed);
    }
    let mut p: Vec<u8> = Vec::new();
    let mut i: usize = 2;
    while i < record.value.len()
        invariant
            2 <= i <= record.value@.len(),
            p@ == record.value@.subrange(2, i as int),
        decreases record.value.len() - i,
    {
        let x = record.value[i];
        p.push(x);
        proof {
            assert(record.value@.subrange(2, i as int).push(record.value@[i as int])
                =~= record.value@.subrange(2, i + 1));
        }
        i += 1;
    }
    proof {
        assert(p@ =~= record.value@.skip(2));
    }
    Ok(p)
}

/// Law: every kind's header encodes to exactly `RecordHeader::SIZE` bytes,
/// and parsing the encoding back recovers the kind.
pub proof fn lemma_header_size_and_round_trip(k: RecordKind)
    ensures
        header_bytes(k).len() == RecordHeader::SIZE,
        parse_header(header_bytes(k)) == Some(k),
{
}

/// Law: framing round-trips. For every kind and every nonempty payload,
/// the framed bytes parse back to the same kind and the same payload, and
/// are long enough to pass the well-formedness check of `from_record`.
pub proof fn lemma_record_round_trip(payload: Seq<u8>, k: RecordKind)
    requires
        payload.len() > 0,
    ensures
        (header_bytes(k) + payload).len() >= 3,
        parse_header(header_bytes(k) + payload) == Some(k),
        (header_bytes(k) + payload).skip(2) == payload,
{
    assert((header_bytes(k) + payload)[0] == HEADER_TAG);
    assert((header_bytes(k) + payload)[1] == kind_index(k));
    assert((header_bytes(k) + payload).skip(2) =~= payload);
}

} // verus!
