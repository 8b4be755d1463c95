use kvm_common::{
    PeerAddr, deserialize_packet, generate_key, serialize_packet, CryptoError, KvmEvent, KvmPacket,
    PacketReceiver, PacketSender, ReplayError, MAGIC, PROTOCOL_VERSION,
};

#[test]
fn test_crypto_roundtrip() {
    let key = generate_key().unwrap();
    let session_id = 1000;
    let mut sender = PacketSender::new(&key, session_id);
    let mut receiver = PacketReceiver::new(&key);

    // 1. Handshake
    let hs_packet = KvmPacket::Handshake {
        version: PROTOCOL_VERSION,
    };
    let enc_hs = sender
        .encrypt_packet(&hs_packet)
        .expect("Encryption failed");
    assert_eq!(&enc_hs[0..4], MAGIC);
    let dec_hs = receiver.decrypt_packet(&enc_hs).expect("Decryption failed");
    match dec_hs {
        KvmPacket::Handshake { version } => assert_eq!(version, PROTOCOL_VERSION),
        _ => panic!("Expected Handshake"),
    }
    assert_eq!(receiver.current_session_id(), Some(session_id));

    // 2. Events
    let events = vec![KvmEvent {
        event_type: 1,
        code: 30,
        value: 1,
    }];
    let ev_packet = KvmPacket::Events(events);
    let enc_ev = sender
        .encrypt_packet(&ev_packet)
        .expect("Encryption failed");
    let dec_ev = receiver.decrypt_packet(&enc_ev).expect("Decryption failed");
    match dec_ev {
        KvmPacket::Events(evs) => assert_eq!(evs.len(), 1),
        _ => panic!("Expected Events"),
    }

    // 3. ReleaseAll
    let rel_packet = KvmPacket::ReleaseAll;
    let enc_rel = sender
        .encrypt_packet(&rel_packet)
        .expect("Encryption failed");
    let dec_rel = receiver
        .decrypt_packet(&enc_rel)
        .expect("Decryption failed");
    match dec_rel {
        KvmPacket::ReleaseAll => {}
        _ => panic!("Expected ReleaseAll"),
    }
}

#[test]
fn test_crypto_tamper_rejected() {
    let key = generate_key().unwrap();
    let mut sender = PacketSender::new(&key, 1000);
    let mut receiver = PacketReceiver::new(&key);

    let packet = KvmPacket::Handshake {
        version: PROTOCOL_VERSION,
    };
    let mut enc = sender.encrypt_packet(&packet).unwrap();

    // Flip a byte in the ciphertext
    let len = enc.len();
    enc[len - 1] ^= 0xFF;

    let res = receiver.decrypt_packet(&enc);
    assert!(matches!(res, Err(CryptoError::AuthFailed)));
}

#[test]
fn test_crypto_wrong_key_rejected() {
    let key1 = generate_key().unwrap();
    let key2 = generate_key().unwrap();
    let mut sender = PacketSender::new(&key1, 1000);
    let mut receiver = PacketReceiver::new(&key2);

    let packet = KvmPacket::Handshake {
        version: PROTOCOL_VERSION,
    };
    let enc = sender.encrypt_packet(&packet).unwrap();

    let res = receiver.decrypt_packet(&enc);
    assert!(matches!(res, Err(CryptoError::AuthFailed)));
}

#[test]
fn test_crypto_replay_rejected() {
    let key = generate_key().unwrap();
    let mut sender = PacketSender::new(&key, 1000);
    let mut receiver = PacketReceiver::new(&key);

    let hs = KvmPacket::Handshake {
        version: PROTOCOL_VERSION,
    };
    let enc_hs = sender.encrypt_packet(&hs).unwrap();
    assert!(receiver.decrypt_packet(&enc_hs).is_ok());

    // Replaying the handshake
    let replay_res = receiver.decrypt_packet(&enc_hs);
    assert!(matches!(
        replay_res,
        Err(CryptoError::Replay(ReplayError::Replayed))
    ));

    // Replaying an events packet
    let ev = KvmPacket::Events(vec![KvmEvent {
        event_type: 1,
        code: 30,
        value: 1,
    }]);
    let enc_ev = sender.encrypt_packet(&ev).unwrap();
    assert!(receiver.decrypt_packet(&enc_ev).is_ok());

    let replay_ev_res = receiver.decrypt_packet(&enc_ev);
    assert!(matches!(
        replay_ev_res,
        Err(CryptoError::Replay(ReplayError::Replayed))
    ));
}

#[test]
fn test_crypto_events_before_handshake_rejected() {
    let key = generate_key().unwrap();
    let mut sender = PacketSender::new(&key, 1000);
    let mut receiver = PacketReceiver::new(&key);

    // Sending events before any handshake is established
    let ev = KvmPacket::Events(vec![KvmEvent {
        event_type: 1,
        code: 30,
        value: 1,
    }]);
    let enc_ev = sender.encrypt_packet(&ev).unwrap();
    let res = receiver.decrypt_packet(&enc_ev);
    assert!(matches!(res, Err(CryptoError::HandshakeRequired)));
}

#[test]
fn test_crypto_old_session_handshake_rejected() {
    let key = generate_key().unwrap();
    let mut sender2 = PacketSender::new(&key, 2000);
    let mut sender1 = PacketSender::new(&key, 1000);
    let mut receiver = PacketReceiver::new(&key);

    // Connect session 2000
    let hs2 = KvmPacket::Handshake {
        version: PROTOCOL_VERSION,
    };
    let enc2 = sender2.encrypt_packet(&hs2).unwrap();
    assert!(receiver.decrypt_packet(&enc2).is_ok());

    // Try to connect session 1000 (older timestamp)
    let hs1 = KvmPacket::Handshake {
        version: PROTOCOL_VERSION,
    };
    let enc1 = sender1.encrypt_packet(&hs1).unwrap();
    let res = receiver.decrypt_packet(&enc1);
    assert!(matches!(res, Err(CryptoError::InvalidSession)));
}

#[test]
fn test_invalid_magic_and_truncated() {
    let key = generate_key().unwrap();
    let mut receiver = PacketReceiver::new(&key);

    // Truncated packet
    assert!(matches!(
        receiver.decrypt_packet(&[0u8; 10]),
        Err(CryptoError::TooShort(_))
    ));

    // Invalid magic
    let mut bogus = vec![0u8; 64];
    bogus[0..4].copy_from_slice(b"BAD0");
    assert!(matches!(
        receiver.decrypt_packet(&bogus),
        Err(CryptoError::InvalidMagic)
    ));
}

#[test]
fn test_security_cwe_306_unauthenticated_injection_blocked() {
    let key = generate_key().unwrap();
    let mut receiver = PacketReceiver::new(&key);

    let attack_events = vec![
        KvmEvent { event_type: 1, code: 125, value: 1 },
        KvmEvent { event_type: 1, code: 19, value: 1 },
        KvmEvent { event_type: 1, code: 19, value: 0 },
        KvmEvent { event_type: 1, code: 125, value: 0 },
    ];
    let attacker_raw_datagram = serialize_packet(&KvmPacket::Events(attack_events)).unwrap();

    let res = receiver.decrypt_packet(&attacker_raw_datagram);
    assert!(res.is_err(), "Unauthenticated datagram must be rejected");
    match res {
        Err(CryptoError::TooShort(_))
        | Err(CryptoError::InvalidMagic)
        | Err(CryptoError::AuthFailed) => {}
        other => panic!("Unexpected error type: {:?}", other),
    }
}

#[test]
fn test_security_cwe_319_cleartext_disclosure_prevented() {
    let key = generate_key().unwrap();
    let mut sender = PacketSender::new(&key, 9999);

    let sensitive_keys = vec![
        KvmEvent { event_type: 1, code: 31, value: 1 },
        KvmEvent { event_type: 1, code: 18, value: 1 },
        KvmEvent { event_type: 1, code: 46, value: 1 },
        KvmEvent { event_type: 1, code: 19, value: 1 },
        KvmEvent { event_type: 1, code: 18, value: 1 },
        KvmEvent { event_type: 1, code: 20, value: 1 },
    ];
    let packet = KvmPacket::Events(sensitive_keys);
    let wire_bytes = sender.encrypt_packet(&packet).unwrap();

    let sniffer_decode_result = deserialize_packet(&wire_bytes);
    assert!(
        sniffer_decode_result.is_err(),
        "Wire bytes must not be decodable as plaintext"
    );

    let wrong_key = generate_key().unwrap();
    let mut sniffer_receiver = PacketReceiver::new(&wrong_key);
    let sniffer_decrypt_result = sniffer_receiver.decrypt_packet(&wire_bytes);
    assert!(
        sniffer_decrypt_result.is_err(),
        "Sniffer without PSK must fail decryption"
    );
}

#[test]
fn test_security_replay_attack_rejected() {
    let key = generate_key().unwrap();
    let mut sender = PacketSender::new(&key, 1234);
    let mut receiver = PacketReceiver::new(&key);

    let hs = KvmPacket::Handshake {
        version: PROTOCOL_VERSION,
    };
    let enc_hs = sender.encrypt_packet(&hs).unwrap();
    assert!(receiver.decrypt_packet(&enc_hs).is_ok());

    let cmd = KvmPacket::Events(vec![KvmEvent {
        event_type: 1,
        code: 28,
        value: 1,
    }]);
    let enc_cmd = sender.encrypt_packet(&cmd).unwrap();

    let res1 = receiver.decrypt_packet(&enc_cmd);
    assert!(res1.is_ok());

    let res_replay = receiver.decrypt_packet(&enc_cmd);
    assert!(res_replay.is_err(), "Replayed packet must be rejected");
    match res_replay {
        Err(CryptoError::Replay(ReplayError::Replayed)) => {}
        other => panic!("Expected Replayed error, got {:?}", other),
    }
}

#[test]
fn test_security_tampered_packet_rejected() {
    let key = generate_key().unwrap();
    let mut sender = PacketSender::new(&key, 1234);
    let mut receiver = PacketReceiver::new(&key);

    let hs = KvmPacket::Handshake {
        version: PROTOCOL_VERSION,
    };
    let mut enc_hs = sender.encrypt_packet(&hs).unwrap();

    let len = enc_hs.len();
    enc_hs[len - 5] ^= 0x01;

    let res = receiver.decrypt_packet(&enc_hs);
    assert!(
        res.is_err(),
        "Tampered packet must fail Poly1305 MAC tag verification"
    );
    match res {
        Err(CryptoError::AuthFailed) => {}
        other => panic!("Expected AuthFailed error, got {:?}", other),
    }
}

#[test]
fn test_end_to_end_udp_authenticated_kvm_flow() {
    // The datagrams travel as byte buffers here, as a socket would carry
    // them, each with the address it came from.
    let key = generate_key().unwrap();
    let host_session_id = 12345678;
    let host_addr = PeerAddr::V4 { ip: u32::from_be_bytes([127, 0, 0, 1]), port: 40000 };
    let mut sender = PacketSender::new(&key, host_session_id);
    let mut receiver = PacketReceiver::new(&key);
    let mut session_peer: Option<PeerAddr> = None;
    let mut wire: Vec<u8> = vec![0u8; 65535];

    let hs_bytes = sender
        .encrypt_packet(&KvmPacket::Handshake { version: PROTOCOL_VERSION })
        .unwrap();
    wire[..hs_bytes.len()].copy_from_slice(&hs_bytes);
    let src = host_addr;
    match receiver.decrypt_packet(&wire[..hs_bytes.len()]).unwrap() {
        KvmPacket::Handshake { version } => {
            assert_eq!(version, PROTOCOL_VERSION);
            if session_peer.is_none() {
                session_peer = Some(src);
            }
        }
        _ => panic!("Expected Handshake packet"),
    }
    assert_eq!(session_peer, Some(host_addr));

    let events = vec![
        KvmEvent { event_type: 1, code: 30, value: 1 },
        KvmEvent { event_type: 2, code: 0, value: 5 },
    ];
    let ev_bytes = sender.encrypt_packet(&KvmPacket::Events(events.clone())).unwrap();
    wire[..ev_bytes.len()].copy_from_slice(&ev_bytes);
    let src = host_addr;
    assert_eq!(session_peer, Some(src));
    match receiver.decrypt_packet(&wire[..ev_bytes.len()]).unwrap() {
        KvmPacket::Events(received_events) => {
            assert_eq!(received_events.len(), 2);
            assert_eq!(received_events[0].code, 30);
            assert_eq!(received_events[0].value, 1);
            assert_eq!(received_events[1].code, 0);
            assert_eq!(received_events[1].value, 5);
        }
        _ => panic!("Expected Events packet"),
    }

    let rel_bytes = sender.encrypt_packet(&KvmPacket::ReleaseAll).unwrap();
    wire[..rel_bytes.len()].copy_from_slice(&rel_bytes);
    match receiver.decrypt_packet(&wire[..rel_bytes.len()]).unwrap() {
        KvmPacket::ReleaseAll => {}
        _ => panic!("Expected ReleaseAll packet"),
    }
}

#[test]
fn sealing_with_a_fixed_nonce_is_deterministic_and_advances_the_sequence() {
    let key = [7u8; 32];
    let nonce = [3u8; 24];
    let mut a = PacketSender::new(&key, 5);
    let mut b = PacketSender::new(&key, 5);
    let packet = KvmPacket::Handshake { version: PROTOCOL_VERSION };
    let da = a.seal_packet(&packet, nonce).unwrap();
    let db = b.seal_packet(&packet, nonce).unwrap();
    assert_eq!(da, db);
    assert_eq!(a.next_seq(), 1);
    assert_eq!(a.session_id(), 5);
    // magic, nonce, then a ciphertext that hides the frame and carries a 16-byte tag
    assert_eq!(&da[0..4], MAGIC);
    assert_eq!(&da[4..28], &nonce);
    let frame_len = 16 + serialize_packet(&packet).unwrap().len();
    assert_eq!(da.len(), 28 + frame_len + 16);
    let mut frame = Vec::new();
    frame.extend_from_slice(&5u64.to_le_bytes());
    frame.extend_from_slice(&0u64.to_le_bytes());
    frame.extend_from_slice(&serialize_packet(&packet).unwrap());
    assert_ne!(&da[28..28 + frame_len], &frame[..]);
    // the second packet of the session has a different sequence number
    let da2 = a.seal_packet(&packet, nonce).unwrap();
    assert_ne!(da, da2);
    assert_eq!(a.next_seq(), 2);
}

#[test]
fn foreign_handshake_is_handed_back_without_a_session() {
    let key = [9u8; 32];
    let mut sender = PacketSender::new(&key, 77);
    let mut receiver = PacketReceiver::new(&key);
    let hs = sender.encrypt_packet(&KvmPacket::Handshake { version: PROTOCOL_VERSION + 1 }).unwrap();
    assert_eq!(receiver.decrypt_packet(&hs), Ok(KvmPacket::Handshake { version: PROTOCOL_VERSION + 1 }));
    assert_eq!(receiver.current_session_id(), None);
    // handed back again on replay: nothing was recorded
    assert_eq!(receiver.decrypt_packet(&hs), Ok(KvmPacket::Handshake { version: PROTOCOL_VERSION + 1 }));
}

#[test]
fn newer_session_replaces_the_current_one() {
    let key = [2u8; 32];
    let mut old_sender = PacketSender::new(&key, 10);
    let mut new_sender = PacketSender::new(&key, 20);
    let mut receiver = PacketReceiver::new(&key);
    let hs = KvmPacket::Handshake { version: PROTOCOL_VERSION };
    assert!(receiver.decrypt_packet(&old_sender.encrypt_packet(&hs).unwrap()).is_ok());
    let old_events = old_sender.encrypt_packet(&KvmPacket::ReleaseAll).unwrap();
    assert!(receiver.decrypt_packet(&new_sender.encrypt_packet(&hs).unwrap()).is_ok());
    assert_eq!(receiver.current_session_id(), Some(20));
    assert_eq!(receiver.decrypt_packet(&old_events), Err(CryptoError::HandshakeRequired));
}

#[test]
fn error_messages() {
    assert_eq!(CryptoError::TooShort(10).message(), "Datagram too short: 10 bytes");
    assert_eq!(CryptoError::InvalidMagic.message(), "Invalid magic bytes in datagram header");
    assert_eq!(
        CryptoError::Replay(ReplayError::Replayed).message(),
        "Replay check failed: Packet sequence number already received (replay detected)"
    );
    assert_eq!(
        CryptoError::Serialization(kvm_common::WireError::UnexpectedEnd).message(),
        "Packet serialization error: io error: unexpected end of file"
    );
    assert_eq!(CryptoError::from(ReplayError::TooOld), CryptoError::Replay(ReplayError::TooOld));
}

#[test]
fn forged_and_short_datagrams_are_refused() {
    let key = [4u8; 32];
    let mut sender = PacketSender::new(&key, 1);
    let mut receiver = PacketReceiver::new(&key);
    assert!(receiver.decrypt_packet(&sender.encrypt_packet(&KvmPacket::Handshake { version: PROTOCOL_VERSION }).unwrap()).is_ok());
    // A datagram of the right shape whose tag does not verify.
    let mut forged = vec![0u8; 80];
    forged[0..4].copy_from_slice(&MAGIC);
    assert_eq!(receiver.decrypt_packet(&forged), Err(CryptoError::AuthFailed));
    assert_eq!(receiver.decrypt_packet(&forged[..59]), Err(CryptoError::TooShort(59)));
}

#[test]
fn frames_open_by_session_and_sequence() {
    let mut receiver = PacketReceiver::new(&[0u8; 32]);
    let mut frame = Vec::new();
    frame.extend_from_slice(&41u64.to_le_bytes());
    frame.extend_from_slice(&3u64.to_le_bytes());
    frame.extend_from_slice(&serialize_packet(&KvmPacket::ReleaseAll).unwrap());
    // No session yet: input needs a handshake.
    assert_eq!(receiver.open_frame(&frame), Err(CryptoError::HandshakeRequired));
    let mut hs = Vec::new();
    hs.extend_from_slice(&41u64.to_le_bytes());
    hs.extend_from_slice(&0u64.to_le_bytes());
    hs.extend_from_slice(&serialize_packet(&KvmPacket::Handshake { version: PROTOCOL_VERSION }).unwrap());
    assert_eq!(receiver.open_frame(&hs), Ok(KvmPacket::Handshake { version: PROTOCOL_VERSION }));
    assert_eq!(receiver.open_frame(&frame), Ok(KvmPacket::ReleaseAll));
    assert_eq!(receiver.open_frame(&frame), Err(CryptoError::Replay(ReplayError::Replayed)));
    assert_eq!(receiver.open_frame(&frame[..15]), Err(CryptoError::TooShort(15)));
    let mut bad = frame.clone();
    bad[16] = 9;
    assert_eq!(
        receiver.open_frame(&bad),
        Err(CryptoError::Serialization(kvm_common::WireError::InvalidVariant(9)))
    );
}

#[test]
fn datagrams_are_magic_nonce_ciphertext() {
    let d = kvm_common::crypto::assemble_datagram(&[1u8; 24], vec![7, 8]);
    let mut expected = vec![b'W', b'K', b'0', b'1'];
    expected.extend_from_slice(&[1u8; 24]);
    expected.extend_from_slice(&[7, 8]);
    assert_eq!(d, expected);
}

#[test]
fn whole_session_delivered_in_order() {
    let key = generate_key().unwrap();
    let mut receiver = PacketReceiver::new(&key);
    let mut old_sender = PacketSender::new(&key, 7);
    let hs = KvmPacket::Handshake { version: PROTOCOL_VERSION };
    let d = old_sender.encrypt_packet(&hs).unwrap();
    assert!(receiver.decrypt_packet(&d).is_ok());

    let mut sender = PacketSender::new(&key, 8);
    let mut sent = vec![hs.clone()];
    for i in 0..60i32 {
        sent.push(KvmPacket::Events(vec![KvmEvent { event_type: 2, code: 0, value: i }]));
        if i % 20 == 0 {
            sent.push(KvmPacket::ReleaseAll);
        }
    }
    for packet in &sent {
        let datagram = sender.encrypt_packet(packet).unwrap();
        assert_eq!(&receiver.decrypt_packet(&datagram).unwrap(), packet);
    }
    assert_eq!(receiver.current_session_id(), Some(8));
}

#[test]
fn cipher_limit_is_the_keystream_left_after_the_key_block() {
    assert_eq!(kvm_common::primitives::MAX_SEALED_PLAINTEXT, (u32::MAX as u64 - 1) * 64);
}
