use bincode::Options;
use kvm_common::{deserialize_packet, serialize_packet, KvmEvent, KvmPacket, WireError, PROTOCOL_VERSION};


#[test]
fn test_handshake_roundtrip() {
    let packet = KvmPacket::Handshake {
        version: PROTOCOL_VERSION,
    };
    let serialized = serialize_packet(&packet).unwrap();
    let deserialized = deserialize_packet(&serialized).unwrap();
    match deserialized {
        KvmPacket::Handshake { version } => {
            assert_eq!(version, PROTOCOL_VERSION);
        }
        _ => panic!("Expected Handshake packet"),
    }
}

#[test]
fn test_events_roundtrip() {
    let events = vec![
        KvmEvent {
            event_type: 1,
            code: 30,
            value: 1,
        },
        KvmEvent {
            event_type: 2,
            code: 0,
            value: -10,
        },
    ];
    let packet = KvmPacket::Events(events.clone());
    let serialized = serialize_packet(&packet).unwrap();
    let deserialized = deserialize_packet(&serialized).unwrap();
    match deserialized {
        KvmPacket::Events(deserialized_events) => {
            assert_eq!(deserialized_events.len(), 2);
            assert_eq!(deserialized_events[0].event_type, 1);
            assert_eq!(deserialized_events[0].code, 30);
            assert_eq!(deserialized_events[0].value, 1);
            assert_eq!(deserialized_events[1].event_type, 2);
            assert_eq!(deserialized_events[1].code, 0);
            assert_eq!(deserialized_events[1].value, -10);
        }
        _ => panic!("Expected Events packet"),
    }
}

#[test]
fn test_release_all_roundtrip() {
    let packet = KvmPacket::ReleaseAll;
    let serialized = serialize_packet(&packet).unwrap();
    let deserialized = deserialize_packet(&serialized).unwrap();
    match deserialized {
        KvmPacket::ReleaseAll => {}
        _ => panic!("Expected ReleaseAll packet"),
    }
}

#[test]
fn wire_format_matches_bincode_fixint_encoding() {
    // An enum variant is its u32 index then its fields, exactly as a tuple.
    let hs = serialize_packet(&KvmPacket::Handshake { version: 7 }).unwrap();
    assert_eq!(hs, bincode::options().with_fixint_encoding().allow_trailing_bytes().serialize(&(0u32, 7u32)).unwrap());
    assert_eq!(hs, vec![0, 0, 0, 0, 7, 0, 0, 0]);

    let events = vec![
        KvmEvent { event_type: 1, code: 30, value: 1 },
        KvmEvent { event_type: 2, code: 8, value: -3 },
    ];
    let ev = serialize_packet(&KvmPacket::Events(events)).unwrap();
    let tuples: Vec<(u16, u16, i32)> = vec![(1, 30, 1), (2, 8, -3)];
    assert_eq!(ev, bincode::options().with_fixint_encoding().allow_trailing_bytes().serialize(&(1u32, tuples)).unwrap());
    assert_eq!(ev.len(), 12 + 2 * 8);

    let rel = serialize_packet(&KvmPacket::ReleaseAll).unwrap();
    assert_eq!(rel, bincode::options().with_fixint_encoding().allow_trailing_bytes().serialize(&2u32).unwrap());
}

#[test]
fn decoding_reads_bincode_bytes() {
    let bytes = bincode::options().with_fixint_encoding().allow_trailing_bytes().serialize(&(1u32, vec![(4u16, 5u16, -6i32)])).unwrap();
    assert_eq!(
        deserialize_packet(&bytes).unwrap(),
        KvmPacket::Events(vec![KvmEvent { event_type: 4, code: 5, value: -6 }])
    );
}

#[test]
fn decoding_ignores_trailing_bytes() {
    let mut bytes = serialize_packet(&KvmPacket::Handshake { version: 3 }).unwrap();
    bytes.extend_from_slice(&[9, 9, 9]);
    assert_eq!(deserialize_packet(&bytes).unwrap(), KvmPacket::Handshake { version: 3 });
}

#[test]
fn decoding_errors() {
    assert_eq!(deserialize_packet(&[0, 0]), Err(WireError::UnexpectedEnd));
    assert_eq!(deserialize_packet(&[0, 0, 0, 0, 1]), Err(WireError::UnexpectedEnd));
    assert_eq!(deserialize_packet(&[3, 0, 0, 0]), Err(WireError::InvalidVariant(3)));
    // Two events announced, one present.
    let mut short = vec![1, 0, 0, 0, 2, 0, 0, 0, 0, 0, 0, 0];
    short.extend_from_slice(&[1, 0, 30, 0, 1, 0, 0, 0]);
    assert_eq!(deserialize_packet(&short), Err(WireError::UnexpectedEnd));
    assert_eq!(deserialize_packet(&[]), Err(WireError::UnexpectedEnd));
}

#[test]
fn wire_error_messages() {
    assert_eq!(WireError::UnexpectedEnd.message(), "io error: unexpected end of file");
    assert_eq!(
        WireError::InvalidVariant(42).message(),
        "invalid value: integer `42`, expected variant index 0 <= i < 3"
    );
    assert_eq!(
        WireError::SizeTooLarge(7).message(),
        format!("Invalid size 7: sizes must fit in a usize (0 to {})", usize::MAX)
    );
    // The reference decoder words a short input the same way.
    let short: Result<(u32, u32), _> = bincode::options()
        .with_fixint_encoding()
        .allow_trailing_bytes()
        .deserialize(&[0u8, 0, 0, 0, 1]);
    assert_eq!(short.unwrap_err().to_string(), WireError::UnexpectedEnd.message());
}

#[test]
fn event_values_keep_their_sign() {
    let events = vec![KvmEvent { event_type: 2, code: 1, value: i32::MIN }, KvmEvent { event_type: 2, code: 1, value: i32::MAX }];
    let bytes = serialize_packet(&KvmPacket::Events(events.clone())).unwrap();
    assert_eq!(deserialize_packet(&bytes).unwrap(), KvmPacket::Events(events));
}
