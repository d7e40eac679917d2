use sn_replication::address::NetworkAddress;
use sn_replication::header::{
    try_deserialize_record, try_serialize_record, Error, Record, RecordHeader, RecordKind,
};

#[test]
fn verify_record_header_encoded_size() -> Result<(), Error> {
    let chunk_with_payment = RecordHeader {
        kind: RecordKind::ChunkWithPayment,
    }
    .try_serialize()?;
    assert_eq!(chunk_with_payment.len(), RecordHeader::SIZE);

    let reg_with_payment = RecordHeader {
        kind: RecordKind::RegisterWithPayment,
    }
    .try_serialize()?;
    assert_eq!(reg_with_payment.len(), RecordHeader::SIZE);

    let chunk = RecordHeader {
        kind: RecordKind::Chunk,
    }
    .try_serialize()?;
    assert_eq!(chunk.len(), RecordHeader::SIZE);

    let spend = RecordHeader {
        kind: RecordKind::Spend,
    }
    .try_serialize()?;
    assert_eq!(spend.len(), RecordHeader::SIZE);

    let register = RecordHeader {
        kind: RecordKind::Register,
    }
    .try_serialize()?;
    assert_eq!(register.len(), RecordHeader::SIZE);

    let scratchpad = RecordHeader {
        kind: RecordKind::Scratchpad,
    }
    .try_serialize()?;
    assert_eq!(scratchpad.len(), RecordHeader::SIZE);

    let scratchpad_with_payment = RecordHeader {
        kind: RecordKind::ScratchpadWithPayment,
    }
    .try_serialize()?;
    assert_eq!(scratchpad_with_payment.len(), RecordHeader::SIZE);

    Ok(())
}

const ALL_KINDS: [RecordKind; 7] = [
    RecordKind::Chunk,
    RecordKind::ChunkWithPayment,
    RecordKind::Spend,
    RecordKind::Register,
    RecordKind::RegisterWithPayment,
    RecordKind::Scratchpad,
    RecordKind::ScratchpadWithPayment,
];

#[test]
fn header_round_trip_recovers_every_kind() {
    for kind in ALL_KINDS {
        let bytes = RecordHeader { kind }.try_serialize().unwrap();
        assert_eq!(bytes.len(), RecordHeader::SIZE);
        let header = RecordHeader::try_deserialize(&bytes).unwrap();
        assert_eq!(header.kind, kind);
    }
}

#[test]
fn spend_header_exact_bytes() {
    let bytes = RecordHeader {
        kind: RecordKind::Spend,
    }
    .try_serialize()
    .unwrap();
    assert_eq!(bytes, vec![0x91, 2]);
}

#[test]
fn record_round_trip_recovers_kind_and_payload() {
    let payload = vec![7u8, 1, 255, 0, 42];
    for kind in ALL_KINDS {
        let value = try_serialize_record(&payload, kind).unwrap();
        assert_eq!(value.len(), RecordHeader::SIZE + payload.len());
        let record = Record {
            key: NetworkAddress(99),
            value,
        };
        let header = RecordHeader::from_record(&record).unwrap();
        assert_eq!(header.kind, kind);
        let decoded = try_deserialize_record(&record).unwrap();
        assert_eq!(decoded, payload);
    }
}

#[test]
fn from_record_rejects_too_short_values() {
    // A record must carry the header and at least one payload byte.
    let record = Record {
        key: NetworkAddress(1),
        value: vec![0x91, 0],
    };
    assert_eq!(
        RecordHeader::from_record(&record),
        Err(Error::RecordHeaderParsingFailed)
    );
}

#[test]
fn from_record_rejects_bad_tag() {
    let record = Record {
        key: NetworkAddress(1),
        value: vec![0x92, 0, 1],
    };
    assert_eq!(
        RecordHeader::from_record(&record),
        Err(Error::RecordHeaderParsingFailed)
    );
}

#[test]
fn from_record_rejects_unknown_kind_index() {
    let record = Record {
        key: NetworkAddress(1),
        value: vec![0x91, 7, 1],
    };
    assert_eq!(
        RecordHeader::from_record(&record),
        Err(Error::RecordHeaderParsingFailed)
    );
}

#[test]
fn deserialize_record_rejects_headerless_values() {
    let record = Record {
        key: NetworkAddress(1),
        value: vec![0x91, 0],
    };
    assert_eq!(
        try_deserialize_record(&record),
        Err(Error::RecordParsingFailed)
    );
}

#[test]
fn is_record_of_type_chunk_reads_only_the_header() {
    let chunk_value = try_serialize_record(&vec![1, 2, 3], RecordKind::Chunk).unwrap();
    let chunk = Record {
        key: NetworkAddress(5),
        value: chunk_value,
    };
    assert_eq!(RecordHeader::is_record_of_type_chunk(&chunk), Ok(true));

    let spend_value = try_serialize_record(&vec![1, 2, 3], RecordKind::Spend).unwrap();
    let spend = Record {
        key: NetworkAddress(5),
        value: spend_value,
    };
    assert_eq!(RecordHeader::is_record_of_type_chunk(&spend), Ok(false));
}
