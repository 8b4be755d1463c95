use kvm_common::client::{InputCommand, InputTracker, MouseAction};
use kvm_common::{
    evdev_to_windows_vk, key_name_to_codes, generate_key, handle_incoming_datagram, serialize_packet, HostIp,
    KvmEvent, KvmPacket, PacketAction, PacketReceiver, PacketSender, PeerAddr, PROTOCOL_VERSION,
};

fn v4(a: u8, b: u8, c: u8, d: u8, port: u16) -> PeerAddr {
    PeerAddr::V4 { ip: u32::from_be_bytes([a, b, c, d]), port }
}

#[test]
fn test_unauthenticated_packet_dropped() {
    let key = generate_key().unwrap();
    let mut receiver = PacketReceiver::new(&key);
    let mut session_peer = None;
    let src = v4(192, 168, 1, 50, 8000);

    let plain_bytes = serialize_packet(&KvmPacket::Events(vec![KvmEvent {
        event_type: 1,
        code: 125,
        value: 1,
    }]))
    .unwrap();

    let action = handle_incoming_datagram(&mut receiver, &mut session_peer, None, src, &plain_bytes);
    assert_eq!(action, PacketAction::DroppedAuthError);
    assert_eq!(session_peer, None);
}

#[test]
fn test_events_before_handshake_ignored() {
    let key = generate_key().unwrap();
    let mut sender = PacketSender::new(&key, 1000);
    let mut receiver = PacketReceiver::new(&key);
    let mut session_peer = None;
    let src = v4(192, 168, 1, 50, 8000);

    let ev_packet = KvmPacket::Events(vec![KvmEvent {
        event_type: 1,
        code: 30,
        value: 1,
    }]);
    let enc_ev = sender.encrypt_packet(&ev_packet).unwrap();

    let action = handle_incoming_datagram(&mut receiver, &mut session_peer, None, src, &enc_ev);
    assert_eq!(action, PacketAction::IgnoredBeforeHandshake);
    assert_eq!(session_peer, None);
}

#[test]
fn test_session_peer_pinning_and_event_dispatch() {
    let key = generate_key().unwrap();
    let mut sender = PacketSender::new(&key, 1000);
    let mut receiver = PacketReceiver::new(&key);
    let mut session_peer = None;
    let host_addr = v4(192, 168, 1, 10, 8000);
    let attacker_addr = v4(192, 168, 1, 99, 8000);

    let hs_packet = KvmPacket::Handshake {
        version: PROTOCOL_VERSION,
    };
    let enc_hs = sender.encrypt_packet(&hs_packet).unwrap();
    let action = handle_incoming_datagram(&mut receiver, &mut session_peer, None, host_addr, &enc_hs);
    assert_eq!(action, PacketAction::HandshakeAccepted(host_addr));
    assert_eq!(session_peer, Some(host_addr));

    let mut attacker_sender = PacketSender::new(&key, 1000);
    let ev_packet = KvmPacket::Events(vec![KvmEvent {
        event_type: 1,
        code: 30,
        value: 1,
    }]);
    let enc_ev = attacker_sender.encrypt_packet(&ev_packet).unwrap();
    let action = handle_incoming_datagram(&mut receiver, &mut session_peer, None, attacker_addr, &enc_ev);
    assert_eq!(action, PacketAction::IgnoredNotPinnedPeer);

    let enc_ev_host = sender.encrypt_packet(&ev_packet).unwrap();
    let action = handle_incoming_datagram(&mut receiver, &mut session_peer, None, host_addr, &enc_ev_host);
    match action {
        PacketAction::Events(evs) => assert_eq!(evs.len(), 1),
        other => panic!("Expected Events, got {:?}", other),
    }

    let rel_packet = KvmPacket::ReleaseAll;
    let enc_rel = sender.encrypt_packet(&rel_packet).unwrap();
    let action = handle_incoming_datagram(&mut receiver, &mut session_peer, None, host_addr, &enc_rel);
    assert_eq!(action, PacketAction::ReleaseAll);
}

#[test]
fn test_allowed_host_filter() {
    let key = generate_key().unwrap();
    let mut sender = PacketSender::new(&key, 1000);
    let mut receiver = PacketReceiver::new(&key);
    let mut session_peer = None;
    let allowed_ip = HostIp::V4(u32::from_be_bytes([192, 168, 1, 10]));
    let host_addr = v4(192, 168, 1, 10, 8000);
    let wrong_addr = v4(192, 168, 1, 11, 8000);

    let hs_packet = KvmPacket::Handshake {
        version: PROTOCOL_VERSION,
    };
    let enc_hs = sender.encrypt_packet(&hs_packet).unwrap();

    let action = handle_incoming_datagram(&mut receiver, &mut session_peer, Some(allowed_ip), wrong_addr, &enc_hs);
    assert_eq!(action, PacketAction::IgnoredNotAllowedHost);
    assert_eq!(session_peer, None);

    let action = handle_incoming_datagram(&mut receiver, &mut session_peer, Some(allowed_ip), host_addr, &enc_hs);
    assert_eq!(action, PacketAction::HandshakeAccepted(host_addr));
    assert_eq!(session_peer, Some(host_addr));
}

#[test]
fn test_evdev_to_windows_vk_mapping() {
    // Esc
    assert_eq!(evdev_to_windows_vk(1), Some((0x1B, false)));
    // Letters: Q, W, E, R
    assert_eq!(evdev_to_windows_vk(16), Some((0x51, false)));
    assert_eq!(evdev_to_windows_vk(19), Some((0x52, false)));
    // Win keys (extended)
    assert_eq!(evdev_to_windows_vk(125), Some((0x5B, true)));
    assert_eq!(evdev_to_windows_vk(126), Some((0x5C, true)));
    // Non-existent key
    assert_eq!(evdev_to_windows_vk(9999), None);
}

#[test]
fn vk_mapping_rows() {
    assert_eq!(evdev_to_windows_vk(2), Some((b'1' as u16, false)));
    assert_eq!(evdev_to_windows_vk(11), Some((b'0' as u16, false)));
    assert_eq!(evdev_to_windows_vk(44), Some((b'Z' as u16, false)));
    assert_eq!(evdev_to_windows_vk(68), Some((0x79, false)));
    assert_eq!(evdev_to_windows_vk(88), Some((0x7B, false)));
    assert_eq!(evdev_to_windows_vk(111), Some((0x2E, true)));
    assert_eq!(evdev_to_windows_vk(82), Some((0x60, false)));
    assert_eq!(evdev_to_windows_vk(0), None);
    assert_eq!(evdev_to_windows_vk(272), None);
}

#[test]
fn version_mismatch_and_peer_stays_pinned() {
    let key = [5u8; 32];
    let mut sender = PacketSender::new(&key, 1);
    let mut receiver = PacketReceiver::new(&key);
    let mut peer = None;
    let host = PeerAddr::V6 { ip: 1, port: 9, flowinfo: 0, scope_id: 0 };
    let other_scope = PeerAddr::V6 { ip: 1, port: 9, flowinfo: 0, scope_id: 2 };
    let hs = sender.encrypt_packet(&KvmPacket::Handshake { version: 9 }).unwrap();
    assert_eq!(
        handle_incoming_datagram(&mut receiver, &mut peer, None, host, &hs),
        PacketAction::HandshakeVersionMismatch { version: 9, expected: PROTOCOL_VERSION }
    );
    assert_eq!(peer, None);
    let hs = sender.encrypt_packet(&KvmPacket::Handshake { version: PROTOCOL_VERSION }).unwrap();
    assert_eq!(handle_incoming_datagram(&mut receiver, &mut peer, None, host, &hs), PacketAction::HandshakeAccepted(host));
    let rel = sender.encrypt_packet(&KvmPacket::ReleaseAll).unwrap();
    assert_eq!(handle_incoming_datagram(&mut receiver, &mut peer, None, other_scope, &rel), PacketAction::IgnoredNotPinnedPeer);
    assert_eq!(peer, Some(host));
    assert_eq!(handle_incoming_datagram(&mut receiver, &mut peer, Some(HostIp::V4(1)), host, &rel), PacketAction::IgnoredNotAllowedHost);
    assert_eq!(handle_incoming_datagram(&mut receiver, &mut peer, Some(HostIp::V6(1)), host, &rel), PacketAction::ReleaseAll);
    assert_eq!(host.ip(), HostIp::V6(1));
}

fn ev(t: u16, c: u16, v: i32) -> KvmEvent {
    KvmEvent { event_type: t, code: c, value: v }
}

#[test]
fn input_commands_for_events() {
    let mut t = InputTracker::new();
    assert_eq!(
        t.apply_event(ev(1, 272, 1)),
        Some(InputCommand::Mouse { action: MouseAction::LeftDown, dx: 0, dy: 0, data: 0 })
    );
    assert_eq!(
        t.apply_event(ev(1, 273, 0)),
        Some(InputCommand::Mouse { action: MouseAction::RightUp, dx: 0, dy: 0, data: 0 })
    );
    assert_eq!(t.apply_event(ev(1, 30, 1)), Some(InputCommand::Key { vk: 0x41, extended: false, up: false }));
    assert_eq!(t.apply_event(ev(1, 97, 2)), Some(InputCommand::Key { vk: 0xA3, extended: true, up: false }));
    assert_eq!(t.apply_event(ev(1, 9999, 1)), None);
    assert_eq!(
        t.apply_event(ev(2, 0, -7)),
        Some(InputCommand::Mouse { action: MouseAction::Move, dx: -7, dy: 0, data: 0 })
    );
    assert_eq!(
        t.apply_event(ev(2, 1, 4)),
        Some(InputCommand::Mouse { action: MouseAction::Move, dx: 0, dy: 4, data: 0 })
    );
    assert_eq!(
        t.apply_event(ev(2, 8, -2)),
        Some(InputCommand::Mouse { action: MouseAction::Wheel, dx: 0, dy: 0, data: -240 })
    );
    assert_eq!(
        t.apply_event(ev(2, 6, i32::MAX)),
        Some(InputCommand::Mouse { action: MouseAction::HorizontalWheel, dx: 0, dy: 0, data: i32::MAX.wrapping_mul(120) })
    );
    assert_eq!(t.apply_event(ev(2, 3, 1)), None);
    assert_eq!(t.apply_event(ev(3, 0, 1)), None);

    // Release everything held: A, right ctrl, then the left button.
    let released = t.release_all();
    assert_eq!(released.len(), 3);
    assert!(released.contains(&InputCommand::Key { vk: 0x41, extended: false, up: true }));
    assert!(released.contains(&InputCommand::Key { vk: 0xA3, extended: true, up: true }));
    assert_eq!(released[2], InputCommand::Mouse { action: MouseAction::LeftUp, dx: 0, dy: 0, data: 0 });
    assert!(t.release_all().is_empty());
}

#[test]
fn keys_released_once_and_forgotten_on_key_up() {
    let mut t = InputTracker::new();
    t.apply_event(ev(1, 30, 1));
    t.apply_event(ev(1, 30, 2));
    t.apply_event(ev(1, 31, 1));
    t.apply_event(ev(1, 31, 0));
    t.apply_event(ev(1, 274, 1));
    let released = t.release_all();
    assert_eq!(
        released,
        vec![
            InputCommand::Key { vk: 0x41, extended: false, up: true },
            InputCommand::Mouse { action: MouseAction::MiddleUp, dx: 0, dy: 0, data: 0 },
        ]
    );
}

#[test]
fn host_and_client_agree_on_letters() {
    for letter in b'a'..=b'z' {
        let name = (letter as char).to_string();
        let codes = key_name_to_codes(&name).unwrap();
        assert_eq!(codes.len(), 1, "{}", name);
        let code = *codes.iter().next().unwrap();
        assert_eq!(evdev_to_windows_vk(code), Some((letter.to_ascii_uppercase() as u16, false)), "{}", name);
        assert_eq!(key_name_to_codes(&name.to_uppercase()).unwrap(), codes);
    }
}
