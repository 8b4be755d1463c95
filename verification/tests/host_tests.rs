use kvm_common::host::{
    contains_str, device_name_matches, device_scan_action, devices_still_present, is_new_device,
    lowered_key_name_to_codes, DeviceScan, HostOutcome, RESCAN_INTERVAL_MS,
};
use kvm_common::{key_name_to_codes, parse_hotkey, process_events, KvmEvent, KvmPacket, PROTOCOL_VERSION};
use std::collections::HashSet;

#[test]
fn test_parse_hotkey() {
    let hotkey = parse_hotkey("meta+esc").unwrap();
    assert_eq!(hotkey.len(), 2);
    assert!(hotkey[0].contains(&125));
    assert!(hotkey[0].contains(&126));
    assert!(hotkey[1].contains(&1));

    let hotkey2 = parse_hotkey("ctrl,alt,k").unwrap();
    assert_eq!(hotkey2.len(), 3);
    assert!(hotkey2[0].contains(&29));
    assert!(hotkey2[0].contains(&97));
    assert!(hotkey2[1].contains(&56));
    assert!(hotkey2[1].contains(&100));
    assert!(hotkey2[2].contains(&37));

    let hotkey3 = parse_hotkey("125,1").unwrap();
    assert_eq!(hotkey3.len(), 2);
    assert!(hotkey3[0].contains(&125));
    assert!(hotkey3[1].contains(&1));

    assert!(parse_hotkey("unknown+esc").is_err());
}

#[test]
fn hotkey_errors_and_blank_parts() {
    assert_eq!(parse_hotkey("unknown+esc").unwrap_err(), "Unknown key name: 'unknown'");
    assert_eq!(parse_hotkey("").unwrap_err(), "Hotkey cannot be empty");
    assert_eq!(parse_hotkey(" + , ").unwrap_err(), "Unknown key name: ','");
    assert_eq!(parse_hotkey(" , ").unwrap_err(), "Hotkey cannot be empty");
    let hk = parse_hotkey(" Ctrl ++ SHIFT ").unwrap();
    assert_eq!(hk.len(), 2);
    assert_eq!(hk[0], HashSet::from([29, 97]));
    assert_eq!(hk[1], HashSet::from([42, 54]));
    // '+' wins over ','
    assert!(parse_hotkey("a,b+c").is_err());
    let single = parse_hotkey("f12").unwrap_err();
    assert_eq!(single, "Unknown key name: 'f12'");
}

#[test]
fn key_names() {
    assert_eq!(key_name_to_codes("  Escape ").unwrap(), HashSet::from([1]));
    assert_eq!(key_name_to_codes("WIN").unwrap(), HashSet::from([125, 126]));
    assert_eq!(key_name_to_codes("+300").unwrap(), HashSet::from([300]));
    assert_eq!(key_name_to_codes("z").unwrap(), HashSet::from([44]));
    assert_eq!(key_name_to_codes("altgr").unwrap(), HashSet::from([100]));
    assert_eq!(key_name_to_codes("70000").unwrap_err(), "Unknown key name: '70000'");
    // The Kelvin sign lowercases to 'k'.
    assert_eq!(key_name_to_codes("\u{212A}").unwrap(), HashSet::from([37]));
}

fn ev(t: u16, c: u16, v: i32) -> KvmEvent {
    KvmEvent { event_type: t, code: c, value: v }
}

#[test]
fn hotkey_toggles_grab_and_is_not_forwarded() {
    let hot = parse_hotkey("meta+esc").unwrap();
    let mut grabbed = false;
    let mut active = HashSet::new();

    // Not grabbed: ordinary keys go nowhere.
    let out = process_events(&vec![ev(1, 30, 1), ev(1, 30, 0)], &mut grabbed, &mut active, &hot);
    assert!(!out.toggled);
    assert!(out.packet.is_none());

    // Meta then Esc: grab, announce with a handshake.
    let out = process_events(&vec![ev(1, 125, 1), ev(1, 1, 1), ev(1, 30, 1)], &mut grabbed, &mut active, &hot);
    assert!(out.toggled);
    assert!(grabbed);
    assert_eq!(out.packet, Some(KvmPacket::Handshake { version: PROTOCOL_VERSION }));
    assert!(active.contains(&125) && active.contains(&1) && active.contains(&30));

    // Grabbed: events are forwarded in order.
    let out = process_events(&vec![ev(1, 1, 0), ev(1, 125, 0), ev(2, 0, 5)], &mut grabbed, &mut active, &hot);
    assert!(!out.toggled);
    assert_eq!(out.packet, Some(KvmPacket::Events(vec![ev(1, 1, 0), ev(1, 125, 0), ev(2, 0, 5)])));

    // Hotkey again: release everything, forget held keys, forward nothing.
    let out = process_events(&vec![ev(2, 1, 3), ev(1, 126, 1), ev(1, 1, 1), ev(1, 31, 1)], &mut grabbed, &mut active, &hot);
    let HostOutcome { toggled, packet } = out;
    assert!(toggled);
    assert!(!grabbed);
    assert_eq!(packet, Some(KvmPacket::ReleaseAll));
    assert!(active.is_empty());
}

#[test]
fn repeats_hold_keys_and_releases_let_go() {
    let hot = parse_hotkey("ctrl+k").unwrap();
    let mut grabbed = true;
    let mut active = HashSet::new();
    let out = process_events(&vec![ev(1, 29, 2), ev(1, 50, 1), ev(1, 50, 0)], &mut grabbed, &mut active, &hot);
    assert_eq!(active, HashSet::from([29]));
    assert_eq!(out.packet, Some(KvmPacket::Events(vec![ev(1, 29, 2), ev(1, 50, 1), ev(1, 50, 0)])));
    // A repeat of k completes nothing: only a press fires.
    let out = process_events(&vec![ev(1, 37, 2)], &mut grabbed, &mut active, &hot);
    assert!(!out.toggled);
    let out = process_events(&vec![ev(1, 37, 1)], &mut grabbed, &mut active, &hot);
    assert!(out.toggled);
    assert!(!grabbed);
}

#[test]
fn device_names_match_case_insensitively() {
    assert!(device_name_matches("Logitech USB Receiver", "logitech"));
    assert!(device_name_matches("LOGITECH", "Logitech"));
    assert!(device_name_matches("anything", ""));
    assert!(!device_name_matches("Razer", "logitech"));
    assert!(!device_name_matches("Log", "logitech"));
}

#[test]
fn lowered_names_and_substrings() {
    assert_eq!(lowered_key_name_to_codes("lctrl", " LCtrl ").unwrap(), HashSet::from([29]));
    assert_eq!(lowered_key_name_to_codes("LCTRL", "LCTRL").unwrap_err(), "Unknown key name: 'LCTRL'");
    assert_eq!(lowered_key_name_to_codes("0001", "0001").unwrap(), HashSet::from([1]));
    assert!(contains_str("abcabd", "abd"));
    assert!(!contains_str("abcab", "abd"));
    assert!(contains_str("", ""));
}

#[test]
fn device_scan_rescans_by_name_every_interval() {
    assert_eq!(device_scan_action(false, true, 5000), DeviceScan::Rescan);
    assert_eq!(device_scan_action(false, false, RESCAN_INTERVAL_MS), DeviceScan::Rescan);
    assert_eq!(device_scan_action(false, true, 1999), DeviceScan::Idle);
    assert_eq!(device_scan_action(false, false, 0), DeviceScan::Idle);
}

#[test]
fn device_scan_opens_given_device_only_when_none_open() {
    assert_eq!(device_scan_action(true, false, 0), DeviceScan::OpenGivenDevice);
    assert_eq!(device_scan_action(true, false, 10_000), DeviceScan::OpenGivenDevice);
    assert_eq!(device_scan_action(true, true, 10_000), DeviceScan::Idle);
}

#[test]
fn vanished_devices_are_dropped() {
    let open = vec![b"/dev/input/event3".to_vec(), b"/dev/input/event7".to_vec(), b"/dev/input/event1".to_vec()];
    let found = vec![b"/dev/input/event1".to_vec(), b"/dev/input/event3".to_vec(), b"/dev/input/event9".to_vec()];
    assert_eq!(devices_still_present(&open, &found), vec![true, false, true]);
    assert_eq!(devices_still_present(&open, &Vec::new()), vec![false, false, false]);
    assert!(devices_still_present(&Vec::new(), &found).is_empty());
}

#[test]
fn only_unopened_paths_are_new() {
    let open = vec![b"/dev/input/event3".to_vec(), b"/dev/input/event1".to_vec()];
    assert!(!is_new_device(&open, b"/dev/input/event3"));
    assert!(is_new_device(&open, b"/dev/input/event9"));
    assert!(is_new_device(&open, b"/dev/input/event"));
    assert!(is_new_device(&Vec::new(), b"/dev/input/event0"));
}

#[test]
fn default_hotkey_is_right_ctrl_k() {
    let hotkey = parse_hotkey("rctrl+k").unwrap();
    assert_eq!(hotkey.len(), 2);
    assert_eq!(hotkey[0], [97u16].into_iter().collect::<HashSet<u16>>());
    assert_eq!(hotkey[1], [37u16].into_iter().collect::<HashSet<u16>>());
}

#[test]
fn generic_modifier_is_left_and_right() {
    for (generic, left, right) in [
        ("ctrl", "lctrl", "rctrl"),
        ("alt", "lalt", "ralt"),
        ("shift", "lshift", "rshift"),
        ("meta", "lmeta", "rmeta"),
    ] {
        let g = key_name_to_codes(generic).unwrap();
        let l = key_name_to_codes(left).unwrap();
        let r = key_name_to_codes(right).unwrap();
        assert_eq!(l.len(), 1);
        assert_eq!(r.len(), 1);
        let both: HashSet<u16> = l.union(&r).copied().collect();
        assert_eq!(g, both, "{}", generic);
    }
    assert_eq!(key_name_to_codes("ctrl").unwrap(), [29u16, 97].into_iter().collect::<HashSet<u16>>());
    assert_eq!(key_name_to_codes("meta").unwrap(), [125u16, 126].into_iter().collect::<HashSet<u16>>());
}
