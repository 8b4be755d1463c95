//! Client side: what to do with each datagram, and how Linux input events
//! become Windows keyboard and mouse input.
use crate::crypto::{accept_step, open_step, sealed_by, CryptoError, PacketReceiver, ReceiverModel};
use crate::protocol::{KvmEvent, KvmPacket, PacketModel, PROTOCOL_VERSION};
use std::collections::HashSet;
use vstd::prelude::*;

verus! {

broadcast use vstd::std_specs::hash::group_hash_axioms;

/// Command-line settings of the client.
pub struct Args {
    /// Socket bind address.
    pub bind: String,
    /// Pre-shared key (passphrase or 64 hex digits).
    pub key: Option<String>,
    /// Path of a file holding the pre-shared key.
    pub key_file: Option<String>,
    /// Only handshakes from this host IP are accepted.
    pub allowed_host: Option<String>,
    /// Print a fresh random key and exit.
    pub generate_key: bool,
}

/// The letter on the key with Linux key code `code`, on a QWERTY layout.
pub open spec fn qwerty_letter(code: u16) -> Option<char> {
    if 16 <= code <= 25 {
        Some(seq!['Q', 'W', 'E', 'R', 'T', 'Y', 'U', 'I', 'O', 'P'][code - 16])
    } else if 30 <= code <= 38 {
        Some(seq!['A', 'S', 'D', 'F', 'G', 'H', 'J', 'K', 'L'][code - 30])
    } else if 44 <= code <= 50 {
        Some(seq!['Z', 'X', 'C', 'V', 'B', 'N', 'M'][code - 44])
    } else {
        None
    }
}

/// The Windows virtual-key code for a Linux key code, and whether it is an
/// extended key. Digits and letters map to their ASCII codes, F1 to F10 to
/// consecutive codes from `VK_F1`; the other keys are listed one by one.
pub open spec fn windows_vk(code: u16) -> Option<(u16, bool)> {
    if 2 <= code <= 10 {
        Some(((0x31 + code - 2) as u16, false))
    } else if code == 11 {
        Some((0x30u16, false))
    } else if qwerty_letter(code) is Some {
        Some((qwerty_letter(code)->0 as u16, false))
    } else if 59 <= code <= 68 {
        Some(((0x70 + code - 59) as u16, false))
    } else {
        match code {
            1 => Some((0x1Bu16, false)),
            12 => Some((0xBDu16, false)),
            13 => Some((0xBBu16, false)),
            14 => Some((0x08u16, false)),
            15 => Some((0x09u16, false)),
            26 => Some((0xDBu16, false)),
            27 => Some((0xDDu16, false)),
            28 => Some((0x0Du16, false)),
            29 => Some((0xA2u16, false)),
            39 => Some((0xBAu16, false)),
            40 => Some((0xDEu16, false)),
            41 => Some((0xC0u16, false)),
            42 => Some((0xA0u16, false)),
            43 => Some((0xDCu16, false)),
            51 => Some((0xBCu16, false)),
            52 => Some((0xBEu16, false)),
            53 => Some((0xBFu16, false)),
            54 => Some((0xA1u16, false)),
            55 => Some((0x6Au16, false)),
            56 => Some((0xA4u16, false)),
            57 => Some((0x20u16, false)),
            58 => Some((0x14u16, false)),
            87 => Some((0x7Au16, false)),
            88 => Some((0x7Bu16, false)),
            97 => Some((0xA3u16, true)),
            100 => Some((0xA5u16, true)),
            102 => Some((0x24u16, true)),
            103 => Some((0x26u16, true)),
            104 => Some((0x21u16, true)),
            105 => Some((0x25u16, true)),
            106 => Some((0x27u16, true)),
            107 => Some((0x23u16, true)),
            108 => Some((0x28u16, true)),
            109 => Some((0x22u16, true)),
            110 => Some((0x2Du16, true)),
            111 => Some((0x2Eu16, true)),
            113 => Some((0xADu16, false)),
            114 => Some((0xAEu16, false)),
            115 => Some((0xAFu16, false)),
            119 => Some((0x13u16, false)),
            125 => Some((0x5Bu16, true)),
            126 => Some((0x5Cu16, true)),
            71 => Some((0x67u16, false)),
            72 => Some((0x68u16, false)),
            73 => Some((0x69u16, false)),
            74 => Some((0x6Du16, false)),
            75 => Some((0x64u16, false)),
            76 => Some((0x65u16, false)),
            77 => Some((0x66u16, false)),
            78 => Some((0x6Bu16, false)),
            79 => Some((0x61u16, false)),
            80 => Some((0x62u16, false)),
            81 => Some((0x63u16, false)),
            82 => Some((0x60u16, false)),
            83 => Some((0x6Eu16, false)),
            _ => None,
        }
    }
}

/// The Linux key codes that have a Windows virtual key: the main block,
/// F1 to F12, the keypad but its lock keys, right Ctrl and Alt, the
/// navigation block, the volume keys, Pause and the two Windows keys.
pub open spec fn has_windows_key(code: u16) -> bool {
    ||| (1 <= code <= 68)
    ||| (71 <= code <= 83)
    ||| code == 87 || code == 88
    ||| code == 97 || code == 100
    ||| (102 <= code <= 111)
    ||| (113 <= code <= 115)
    ||| code == 119
    ||| code == 125 || code == 126
}

/// The key map, one row per physical key: each Linux key code gives the
/// Windows virtual key of the same key (and whether it is an extended key),
/// and no other code gives one.
pub proof fn lemma_key_map()
    ensures
        // ESC -> VK_ESCAPE
        windows_vk(1) == Some((0x1Bu16, false)),
        // 1 -> '1'
        windows_vk(2) == Some((0x31u16, false)),
        // 2 -> '2'
        windows_vk(3) == Some((0x32u16, false)),
        // 3 -> '3'
        windows_vk(4) == Some((0x33u16, false)),
        // 4 -> '4'
        windows_vk(5) == Some((0x34u16, false)),
        // 5 -> '5'
        windows_vk(6) == Some((0x35u16, false)),
        // 6 -> '6'
        windows_vk(7) == Some((0x36u16, false)),
        // 7 -> '7'
        windows_vk(8) == Some((0x37u16, false)),
        // 8 -> '8'
        windows_vk(9) == Some((0x38u16, false)),
        // 9 -> '9'
        windows_vk(10) == Some((0x39u16, false)),
        // 0 -> '0'
        windows_vk(11) == Some((0x30u16, false)),
        // MINUS -> VK_OEM_MINUS
        windows_vk(12) == Some((0xBDu16, false)),
        // EQUAL -> VK_OEM_PLUS
        windows_vk(13) == Some((0xBBu16, false)),
        // BACKSPACE -> VK_BACK
        windows_vk(14) == Some((0x08u16, false)),
        // TAB -> VK_TAB
        windows_vk(15) == Some((0x09u16, false)),
        // Q -> 'Q'
        windows_vk(16) == Some((0x51u16, false)),
        // W -> 'W'
        windows_vk(17) == Some((0x57u16, false)),
        // E -> 'E'
        windows_vk(18) == Some((0x45u16, false)),
        // R -> 'R'
        windows_vk(19) == Some((0x52u16, false)),
        // T -> 'T'
        windows_vk(20) == Some((0x54u16, false)),
        // Y -> 'Y'
        windows_vk(21) == Some((0x59u16, false)),
        // U -> 'U'
        windows_vk(22) == Some((0x55u16, false)),
        // I -> 'I'
        windows_vk(23) == Some((0x49u16, false)),
        // O -> 'O'
        windows_vk(24) == Some((0x4Fu16, false)),
        // P -> 'P'
        windows_vk(25) == Some((0x50u16, false)),
        // LEFTBRACE -> VK_OEM_4
        windows_vk(26) == Some((0xDBu16, false)),
        // RIGHTBRACE -> VK_OEM_6
        windows_vk(27) == Some((0xDDu16, false)),
        // ENTER -> VK_RETURN
        windows_vk(28) == Some((0x0Du16, false)),
        // LEFTCTRL -> VK_LCONTROL
        windows_vk(29) == Some((0xA2u16, false)),
        // A -> 'A'
        windows_vk(30) == Some((0x41u16, false)),
        // S -> 'S'
        windows_vk(31) == Some((0x53u16, false)),
        // D -> 'D'
        windows_vk(32) == Some((0x44u16, false)),
        // F -> 'F'
        windows_vk(33) == Some((0x46u16, false)),
        // G -> 'G'
        windows_vk(34) == Some((0x47u16, false)),
        // H -> 'H'
        windows_vk(35) == Some((0x48u16, false)),
        // J -> 'J'
        windows_vk(36) == Some((0x4Au16, false)),
        // K -> 'K'
        windows_vk(37) == Some((0x4Bu16, false)),
        // L -> 'L'
        windows_vk(38) == Some((0x4Cu16, false)),
        // SEMICOLON -> VK_OEM_1
        windows_vk(39) == Some((0xBAu16, false)),
        // APOSTROPHE -> VK_OEM_7
        windows_vk(40) == Some((0xDEu16, false)),
        // GRAVE -> VK_OEM_3
        windows_vk(41) == Some((0xC0u16, false)),
        // LEFTSHIFT -> VK_LSHIFT
        windows_vk(42) == Some((0xA0u16, false)),
        // BACKSLASH -> VK_OEM_5
        windows_vk(43) == Some((0xDCu16, false)),
        // Z -> 'Z'
        windows_vk(44) == Some((0x5Au16, false)),
        // X -> 'X'
        windows_vk(45) == Some((0x58u16, false)),
        // C -> 'C'
        windows_vk(46) == Some((0x43u16, false)),
        // V -> 'V'
        windows_vk(47) == Some((0x56u16, false)),
        // B -> 'B'
        windows_vk(48) == Some((0x42u16, false)),
        // N -> 'N'
        windows_vk(49) == Some((0x4Eu16, false)),
        // M -> 'M'
        windows_vk(50) == Some((0x4Du16, false)),
        // COMMA -> VK_OEM_COMMA
        windows_vk(51) == Some((0xBCu16, false)),
        // DOT -> VK_OEM_PERIOD
        windows_vk(52) == Some((0xBEu16, false)),
        // SLASH -> VK_OEM_2
        windows_vk(53) == Some((0xBFu16, false)),
        // RIGHTSHIFT -> VK_RSHIFT
        windows_vk(54) == Some((0xA1u16, false)),
        // KPASTERISK -> VK_MULTIPLY
        windows_vk(55) == Some((0x6Au16, false)),
        // LEFTALT -> VK_LMENU
        windows_vk(56) == Some((0xA4u16, false)),
        // SPACE -> VK_SPACE
        windows_vk(57) == Some((0x20u16, false)),
        // CAPSLOCK -> VK_CAPITAL
        windows_vk(58) == Some((0x14u16, false)),
        // F1 -> VK_F1
        windows_vk(59) == Some((0x70u16, false)),
        // F2 -> VK_F2
        windows_vk(60) == Some((0x71u16, false)),
        // F3 -> VK_F3
        windows_vk(61) == Some((0x72u16, false)),
        // F4 -> VK_F4
        windows_vk(62) == Some((0x73u16, false)),
        // F5 -> VK_F5
        windows_vk(63) == Some((0x74u16, false)),
        // F6 -> VK_F6
        windows_vk(64) == Some((0x75u16, false)),
        // F7 -> VK_F7
        windows_vk(65) == Some((0x76u16, false)),
        // F8 -> VK_F8
        windows_vk(66) == Some((0x77u16, false)),
        // F9 -> VK_F9
        windows_vk(67) == Some((0x78u16, false)),
        // F10 -> VK_F10
        windows_vk(68) == Some((0x79u16, false)),
        // F11 -> VK_F11
        windows_vk(87) == Some((0x7Au16, false)),
        // F12 -> VK_F12
        windows_vk(88) == Some((0x7Bu16, false)),
        // RIGHTCTRL -> VK_RCONTROL (extended)
        windows_vk(97) == Some((0xA3u16, true)),
        // RIGHTALT -> VK_RMENU (extended)
        windows_vk(100) == Some((0xA5u16, true)),
        // HOME -> VK_HOME (extended)
        windows_vk(102) == Some((0x24u16, true)),
        // UP -> VK_UP (extended)
        windows_vk(103) == Some((0x26u16, true)),
        // PAGEUP -> VK_PRIOR (extended)
        windows_vk(104) == Some((0x21u16, true)),
        // LEFT -> VK_LEFT (extended)
        windows_vk(105) == Some((0x25u16, true)),
        // RIGHT -> VK_RIGHT (extended)
        windows_vk(106) == Some((0x27u16, true)),
        // END -> VK_END (extended)
        windows_vk(107) == Some((0x23u16, true)),
        // DOWN -> VK_DOWN (extended)
        windows_vk(108) == Some((0x28u16, true)),
        // PAGEDOWN -> VK_NEXT (extended)
        windows_vk(109) == Some((0x22u16, true)),
        // INSERT -> VK_INSERT (extended)
        windows_vk(110) == Some((0x2Du16, true)),
        // DELETE -> VK_DELETE (extended)
        windows_vk(111) == Some((0x2Eu16, true)),
        // MUTE -> VK_VOLUME_MUTE
        windows_vk(113) == Some((0xADu16, false)),
        // VOLUMEDOWN -> VK_VOLUME_DOWN
        windows_vk(114) == Some((0xAEu16, false)),
        // VOLUMEUP -> VK_VOLUME_UP
        windows_vk(115) == Some((0xAFu16, false)),
        // PAUSE -> VK_PAUSE
        windows_vk(119) == Some((0x13u16, false)),
        // LEFTMETA -> VK_LWIN (extended)
        windows_vk(125) == Some((0x5Bu16, true)),
        // RIGHTMETA -> VK_RWIN (extended)
        windows_vk(126) == Some((0x5Cu16, true)),
        // KP7 -> VK_NUMPAD7
        windows_vk(71) == Some((0x67u16, false)),
        // KP8 -> VK_NUMPAD8
        windows_vk(72) == Some((0x68u16, false)),
        // KP9 -> VK_NUMPAD9
        windows_vk(73) == Some((0x69u16, false)),
        // KPMINUS -> VK_SUBTRACT
        windows_vk(74) == Some((0x6Du16, false)),
        // KP4 -> VK_NUMPAD4
        windows_vk(75) == Some((0x64u16, false)),
        // KP5 -> VK_NUMPAD5
        windows_vk(76) == Some((0x65u16, false)),
        // KP6 -> VK_NUMPAD6
        windows_vk(77) == Some((0x66u16, false)),
        // KPPLUS -> VK_ADD
        windows_vk(78) == Some((0x6Bu16, false)),
        // KP1 -> VK_NUMPAD1
        windows_vk(79) == Some((0x61u16, false)),
        // KP2 -> VK_NUMPAD2
        windows_vk(80) == Some((0x62u16, false)),
        // KP3 -> VK_NUMPAD3
        windows_vk(81) == Some((0x63u16, false)),
        // KP0 -> VK_NUMPAD0
        windows_vk(82) == Some((0x60u16, false)),
        // KPDOT -> VK_DECIMAL
        windows_vk(83) == Some((0x6Eu16, false)),
        forall|code: u16| #[trigger] windows_vk(code) is Some <==> has_windows_key(code),
{
}

/// Translates a Linux key code to a Windows virtual-key code and whether it
/// is an extended key.
pub fn evdev_to_windows_vk(evdev_code: u16) -> (r: Option<(u16, bool)>)
    ensures
        r == windows_vk(evdev_code),
{
    match evdev_code {
        1 => Some((0x1B, false)), // ESC -> VK_ESCAPE
        2 => Some((0x31, false)), // 1 -> '1'
        3 => Some((0x32, false)), // 2 -> '2'
        4 => Some((0x33, false)), // 3 -> '3'
        5 => Some((0x34, false)), // 4 -> '4'
        6 => Some((0x35, false)), // 5 -> '5'
        7 => Some((0x36, false)), // 6 -> '6'
        8 => Some((0x37, false)), // 7 -> '7'
        9 => Some((0x38, false)), // 8 -> '8'
        10 => Some((0x39, false)), // 9 -> '9'
        11 => Some((0x30, false)), // 0 -> '0'
        12 => Some((0xBD, false)), // MINUS -> VK_OEM_MINUS
        13 => Some((0xBB, false)), // EQUAL -> VK_OEM_PLUS
        14 => Some((0x08, false)), // BACKSPACE -> VK_BACK
        15 => Some((0x09, false)), // TAB -> VK_TAB
        16 => Some((0x51, false)), // Q -> 'Q'
        17 => Some((0x57, false)), // W -> 'W'
        18 => Some((0x45, false)), // E -> 'E'
        19 => Some((0x52, false)), // R -> 'R'
        20 => Some((0x54, false)), // T -> 'T'
        21 => Some((0x59, false)), // Y -> 'Y'
        22 => Some((0x55, false)), // U -> 'U'
        23 => Some((0x49, false)), // I -> 'I'
        24 => Some((0x4F, false)), // O -> 'O'
        25 => Some((0x50, false)), // P -> 'P'
        26 => Some((0xDB, false)), // LEFTBRACE -> VK_OEM_4
        27 => Some((0xDD, false)), // RIGHTBRACE -> VK_OEM_6
        28 => Some((0x0D, false)), // ENTER -> VK_RETURN
        29 => Some((0xA2, false)), // LEFTCTRL -> VK_LCONTROL
        30 => Some((0x41, false)), // A -> 'A'
        31 => Some((0x53, false)), // S -> 'S'
        32 => Some((0x44, false)), // D -> 'D'
        33 => Some((0x46, false)), // F -> 'F'
        34 => Some((0x47, false)), // G -> 'G'
        35 => Some((0x48, false)), // H -> 'H'
        36 => Some((0x4A, false)), // J -> 'J'
        37 => Some((0x4B, false)), // K -> 'K'
        38 => Some((0x4C, false)), // L -> 'L'
        39 => Some((0xBA, false)), // SEMICOLON -> VK_OEM_1
        40 => Some((0xDE, false)), // APOSTROPHE -> VK_OEM_7
        41 => Some((0xC0, false)), // GRAVE -> VK_OEM_3
        42 => Some((0xA0, false)), // LEFTSHIFT -> VK_LSHIFT
        43 => Some((0xDC, false)), // BACKSLASH -> VK_OEM_5
        44 => Some((0x5A, false)), // Z -> 'Z'
        45 => Some((0x58, false)), // X -> 'X'
        46 => Some((0x43, false)), // C -> 'C'
        47 => Some((0x56, false)), // V -> 'V'
        48 => Some((0x42, false)), // B -> 'B'
        49 => Some((0x4E, false)), // N -> 'N'
        50 => Some((0x4D, false)), // M -> 'M'
        51 => Some((0xBC, false)), // COMMA -> VK_OEM_COMMA
        52 => Some((0xBE, false)), // DOT -> VK_OEM_PERIOD
        53 => Some((0xBF, false)), // SLASH -> VK_OEM_2
        54 => Some((0xA1, false)), // RIGHTSHIFT -> VK_RSHIFT
        55 => Some((0x6A, false)), // KPASTERISK -> VK_MULTIPLY
        56 => Some((0xA4, false)), // LEFTALT -> VK_LMENU
        57 => Some((0x20, false)), // SPACE -> VK_SPACE
        58 => Some((0x14, false)), // CAPSLOCK -> VK_CAPITAL
        59 => Some((0x70, false)), // F1 -> VK_F1
        60 => Some((0x71, false)), // F2 -> VK_F2
        61 => Some((0x72, false)), // F3 -> VK_F3
        62 => Some((0x73, false)), // F4 -> VK_F4
        63 => Some((0x74, false)), // F5 -> VK_F5
        64 => Some((0x75, false)), // F6 -> VK_F6
        65 => Some((0x76, false)), // F7 -> VK_F7
        66 => Some((0x77, false)), // F8 -> VK_F8
        67 => Some((0x78, false)), // F9 -> VK_F9
        68 => Some((0x79, false)), // F10 -> VK_F10
        87 => Some((0x7A, false)), // F11 -> VK_F11
        88 => Some((0x7B, false)), // F12 -> VK_F12
        97 => Some((0xA3, true)), // RIGHTCTRL -> VK_RCONTROL (extended)
        100 => Some((0xA5, true)), // RIGHTALT -> VK_RMENU (extended)
        102 => Some((0x24, true)), // HOME -> VK_HOME (extended)
        103 => Some((0x26, true)), // UP -> VK_UP (extended)
        104 => Some((0x21, true)), // PAGEUP -> VK_PRIOR (extended)
        105 => Some((0x25, true)), // LEFT -> VK_LEFT (extended)
        106 => Some((0x27, true)), // RIGHT -> VK_RIGHT (extended)
        107 => Some((0x23, true)), // END -> VK_END (extended)
        108 => Some((0x28, true)), // DOWN -> VK_DOWN (extended)
        109 => Some((0x22, true)), // PAGEDOWN -> VK_NEXT (extended)
        110 => Some((0x2D, true)), // INSERT -> VK_INSERT (extended)
        111 => Some((0x2E, true)), // DELETE -> VK_DELETE (extended)
        113 => Some((0xAD, false)), // MUTE -> VK_VOLUME_MUTE
        114 => Some((0xAE, false)), // VOLUMEDOWN -> VK_VOLUME_DOWN
        115 => Some((0xAF, false)), // VOLUMEUP -> VK_VOLUME_UP
        119 => Some((0x13, false)), // PAUSE -> VK_PAUSE
        125 => Some((0x5B, true)), // LEFTMETA -> VK_LWIN (extended)
        126 => Some((0x5C, true)), // RIGHTMETA -> VK_RWIN (extended)
        71 => Some((0x67, false)), // KP7 -> VK_NUMPAD7
        72 => Some((0x68, false)), // KP8 -> VK_NUMPAD8
        73 => Some((0x69, false)), // KP9 -> VK_NUMPAD9
        74 => Some((0x6D, false)), // KPMINUS -> VK_SUBTRACT
        75 => Some((0x64, false)), // KP4 -> VK_NUMPAD4
        76 => Some((0x65, false)), // KP5 -> VK_NUMPAD5
        77 => Some((0x66, false)), // KP6 -> VK_NUMPAD6
        78 => Some((0x6B, false)), // KPPLUS -> VK_ADD
        79 => Some((0x61, false)), // KP1 -> VK_NUMPAD1
        80 => Some((0x62, false)), // KP2 -> VK_NUMPAD2
        81 => Some((0x63, false)), // KP3 -> VK_NUMPAD3
        82 => Some((0x60, false)), // KP0 -> VK_NUMPAD0
        83 => Some((0x6E, false)), // KPDOT -> VK_DECIMAL
        _ => None,
    }
}

/// An IP address: IPv4 or IPv6, as the integer of its octets in network
/// order.
#[derive(Debug, Clone, Copy, PartialEq, Eq, Structural)]
pub enum HostIp {
    V4(u32),
    V6(u128),
}

/// A socket address, with every field that address equality compares.
#[derive(Debug, Clone, Copy, PartialEq, Eq, Structural)]
pub enum PeerAddr {
    V4 { ip: u32, port: u16 },
    V6 { ip: u128, port: u16, flowinfo: u32, scope_id: u32 },
}

impl PeerAddr {
    pub open spec fn spec_ip(self) -> HostIp {
        match self {
            PeerAddr::V4 { ip, .. } => HostIp::V4(ip),
            PeerAddr::V6 { ip, .. } => HostIp::V6(ip),
        }
    }

    pub fn ip(&self) -> (r: HostIp)
        ensures
            r == self.spec_ip(),
    {
        match self {
            PeerAddr::V4 { ip, .. } => HostIp::V4(*ip),
            PeerAddr::V6 { ip, .. } => HostIp::V6(*ip),
        }
    }
}

/// What the client does with a datagram.
#[derive(Debug, PartialEq, Eq)]
pub enum PacketAction {
    IgnoredNotAllowedHost,
    IgnoredNotPinnedPeer,
    DroppedAuthError,
    HandshakeAccepted(PeerAddr),
    HandshakeVersionMismatch { version: u32, expected: u32 },
    Events(Vec<KvmEvent>),
    ReleaseAll,
    IgnoredBeforeHandshake,
}

pub enum ActionModel {
    IgnoredNotAllowedHost,
    IgnoredNotPinnedPeer,
    DroppedAuthError,
    HandshakeAccepted(PeerAddr),
    HandshakeVersionMismatch { version: u32, expected: u32 },
    Events(Seq<KvmEvent>),
    ReleaseAll,
    IgnoredBeforeHandshake,
}

impl View for PacketAction {
    type V = ActionModel;

    open spec fn view(&self) -> ActionModel {
        match self {
            PacketAction::IgnoredNotAllowedHost => ActionModel::IgnoredNotAllowedHost,
            PacketAction::IgnoredNotPinnedPeer => ActionModel::IgnoredNotPinnedPeer,
            PacketAction::DroppedAuthError => ActionModel::DroppedAuthError,
            PacketAction::HandshakeAccepted(a) => ActionModel::HandshakeAccepted(*a),
            PacketAction::HandshakeVersionMismatch { version, expected } => ActionModel::HandshakeVersionMismatch {
                version: *version,
                expected: *expected,
            },
            PacketAction::Events(es) => ActionModel::Events(es@),
            PacketAction::ReleaseAll => ActionModel::ReleaseAll,
            PacketAction::IgnoredBeforeHandshake => ActionModel::IgnoredBeforeHandshake,
        }
    }
}

/// The client after a datagram from `src`, given what the receiver makes
/// of it (`opened`, the receiver after it and the packet or error): the
/// receiver, the pinned peer, and the action. Only the allowed host is
/// heard; once a handshake pins a peer, only that peer is heard; input
/// before a pinned peer is ignored.
pub open spec fn datagram_outcome(
    receiver: ReceiverModel,
    peer: Option<PeerAddr>,
    allowed_ip: Option<HostIp>,
    src: PeerAddr,
    opened: (ReceiverModel, Result<PacketModel, CryptoError>),
) -> (ReceiverModel, Option<PeerAddr>, ActionModel) {
    if allowed_ip matches Some(a) && src.spec_ip() != a {
        (receiver, peer, ActionModel::IgnoredNotAllowedHost)
    } else if peer matches Some(p) && p != src {
        (receiver, peer, ActionModel::IgnoredNotPinnedPeer)
    } else {
        let (r2, res) = opened;
        match res {
            Ok(PacketModel::Handshake { version }) => {
                if version == PROTOCOL_VERSION {
                    (r2, if peer is None { Some(src) } else { peer }, ActionModel::HandshakeAccepted(src))
                } else {
                    (r2, peer, ActionModel::HandshakeVersionMismatch { version, expected: PROTOCOL_VERSION })
                }
            },
            Ok(PacketModel::Events(es)) => if peer is None {
                (r2, peer, ActionModel::IgnoredBeforeHandshake)
            } else {
                (r2, peer, ActionModel::Events(es))
            },
            Ok(PacketModel::ReleaseAll) => if peer is None {
                (r2, peer, ActionModel::IgnoredBeforeHandshake)
            } else {
                (r2, peer, ActionModel::ReleaseAll)
            },
            Err(CryptoError::HandshakeRequired) => (r2, peer, ActionModel::IgnoredBeforeHandshake),
            Err(_) => (r2, peer, ActionModel::DroppedAuthError),
        }
    }
}

/// The client after datagram `buf` from `src`.
pub open spec fn datagram_step(
    receiver: ReceiverModel,
    peer: Option<PeerAddr>,
    allowed_ip: Option<HostIp>,
    src: PeerAddr,
    buf: Seq<u8>,
) -> (ReceiverModel, Option<PeerAddr>, ActionModel) {
    datagram_outcome(receiver, peer, allowed_ip, src, open_step(receiver, buf))
}

/// An allowed host is set and `src` is not on it.
pub open spec fn outside_allowed_host(allowed_ip: Option<HostIp>, src: PeerAddr) -> bool {
    allowed_ip matches Some(a) && src.spec_ip() != a
}

/// A peer other than `src` is pinned.
pub open spec fn other_peer_pinned(peer: Option<PeerAddr>, src: PeerAddr) -> bool {
    peer matches Some(p) && p != src
}

/// The client listens to `src`: it is on the allowed host (when one is
/// set), and it is the pinned peer (when one is pinned).
pub open spec fn source_heard(peer: Option<PeerAddr>, allowed_ip: Option<HostIp>, src: PeerAddr) -> bool {
    &&& allowed_ip matches Some(a) ==> src.spec_ip() == a
    &&& peer matches Some(p) ==> p == src
}

/// From a source the client listens to, the action follows what the
/// receiver made of the datagram: a handshake of this protocol version is
/// accepted from `src` and pins it (or keeps it pinned); one of another
/// version is reported; input is delivered once a peer is pinned and
/// ignored before; a refused frame needing a handshake is ignored, any
/// other refusal dropped. The receiver is the one after the datagram, and
/// the pinned peer changes only when none was pinned.
pub proof fn lemma_heard_source_dispatch(
    receiver: ReceiverModel,
    peer: Option<PeerAddr>,
    allowed_ip: Option<HostIp>,
    src: PeerAddr,
    opened: (ReceiverModel, Result<PacketModel, CryptoError>),
)
    requires
        source_heard(peer, allowed_ip, src),
    ensures
        ({
            let (r2, peer2, action) = datagram_outcome(receiver, peer, allowed_ip, src, opened);
            &&& r2 == opened.0
            &&& opened.1 == Ok::<PacketModel, CryptoError>(PacketModel::Handshake { version: PROTOCOL_VERSION })
                ==> peer2 == Some(src) && action == ActionModel::HandshakeAccepted(src)
            &&& !(opened.1 == Ok::<PacketModel, CryptoError>(PacketModel::Handshake { version: PROTOCOL_VERSION }))
                ==> peer2 == peer
            &&& (opened.1 matches Ok(PacketModel::Handshake { version }) ==> (version != PROTOCOL_VERSION
                ==> action == ActionModel::HandshakeVersionMismatch { version, expected: PROTOCOL_VERSION }))
            &&& (opened.1 matches Ok(PacketModel::Events(es)) ==> action == (if peer is Some {
                ActionModel::Events(es)
            } else {
                ActionModel::IgnoredBeforeHandshake
            }))
            &&& (opened.1 matches Ok(PacketModel::ReleaseAll) ==> action == (if peer is Some {
                ActionModel::ReleaseAll
            } else {
                ActionModel::IgnoredBeforeHandshake
            }))
            &&& (opened.1 matches Err(e) ==> action == (if e == CryptoError::HandshakeRequired {
                ActionModel::IgnoredBeforeHandshake
            } else {
                ActionModel::DroppedAuthError
            }))
        }),
{
}

/// The client ignores a datagram for its source only: as not from the
/// allowed host exactly when an allowed host is set and `src` is not on it,
/// and as not from the pinned peer exactly when `src` passes that test but
/// another peer is pinned. An ignored datagram changes nothing.
pub proof fn lemma_ignored_only_for_source(
    receiver: ReceiverModel,
    peer: Option<PeerAddr>,
    allowed_ip: Option<HostIp>,
    src: PeerAddr,
    opened: (ReceiverModel, Result<PacketModel, CryptoError>),
)
    ensures
        ({
            let (r2, peer2, action) = datagram_outcome(receiver, peer, allowed_ip, src, opened);
            &&& (action == ActionModel::IgnoredNotAllowedHost) <==> outside_allowed_host(allowed_ip, src)
            &&& (action == ActionModel::IgnoredNotPinnedPeer) <==> (!outside_allowed_host(allowed_ip, src)
                && other_peer_pinned(peer, src))
            &&& !source_heard(peer, allowed_ip, src) ==> r2 == receiver && peer2 == peer
        }),
{
}

/// The same laws for a datagram `buf` as the receiver opens it.
pub proof fn lemma_datagram_dispatch(
    receiver: ReceiverModel,
    peer: Option<PeerAddr>,
    allowed_ip: Option<HostIp>,
    src: PeerAddr,
    buf: Seq<u8>,
)
    ensures
        source_heard(peer, allowed_ip, src) && open_step(receiver, buf).1 == Ok::<PacketModel, CryptoError>(
            PacketModel::Handshake { version: PROTOCOL_VERSION },
        ) ==> datagram_step(receiver, peer, allowed_ip, src, buf) == (
            open_step(receiver, buf).0,
            Some(src),
            ActionModel::HandshakeAccepted(src),
        ),
        (datagram_step(receiver, peer, allowed_ip, src, buf).2 == ActionModel::IgnoredNotPinnedPeer) <==> (
        !outside_allowed_host(allowed_ip, src) && other_peer_pinned(peer, src)),
{
    lemma_ignored_only_for_source(receiver, peer, allowed_ip, src, open_step(receiver, buf));
    if source_heard(peer, allowed_ip, src) {
        lemma_heard_source_dispatch(receiver, peer, allowed_ip, src, open_step(receiver, buf));
    }
}

/// Filters, authenticates and classifies one datagram from `src`.
pub fn handle_incoming_datagram(
    receiver: &mut PacketReceiver,
    session_peer: &mut Option<PeerAddr>,
    allowed_ip: Option<HostIp>,
    src: PeerAddr,
    buf: &[u8],
) -> (action: PacketAction)
    ensures
        (final(receiver)@, *final(session_peer), action@) == datagram_step(
            old(receiver)@,
            *old(session_peer),
            allowed_ip,
            src,
            buf@,
        ),
        forall|nonce: Seq<u8>, session_id: u64, seq: u64, p: PacketModel|
            #[trigger] sealed_by(old(receiver)@.key, nonce, session_id, seq, p, buf@) ==> (
                final(receiver)@,
                *final(session_peer),
                action@,
            ) == datagram_outcome(
                old(receiver)@,
                *old(session_peer),
                allowed_ip,
                src,
                accept_step(old(receiver)@, session_id, seq, p),
            ),
{
    if let Some(allowed) = allowed_ip {
        if src.ip() != allowed {
            return PacketAction::IgnoredNotAllowedHost;
        }
    }
    if let Some(p) = *session_peer {
        if p != src {
            return PacketAction::IgnoredNotPinnedPeer;
        }
    }
    match receiver.decrypt_packet(buf) {
        Ok(KvmPacket::Handshake { version }) => {
            if version == PROTOCOL_VERSION {
                if session_peer.is_none() {
                    *session_peer = Some(src);
                }
                PacketAction::HandshakeAccepted(src)
            } else {
                PacketAction::HandshakeVersionMismatch { version, expected: PROTOCOL_VERSION }
            }
        },
        Ok(KvmPacket::Events(events)) => {
            if session_peer.is_none() {
                return PacketAction::IgnoredBeforeHandshake;
            }
            PacketAction::Events(events)
        },
        Ok(KvmPacket::ReleaseAll) => {
            if session_peer.is_none() {
                return PacketAction::IgnoredBeforeHandshake;
            }
            PacketAction::ReleaseAll
        },
        Err(CryptoError::HandshakeRequired) => PacketAction::IgnoredBeforeHandshake,
        Err(_) => PacketAction::DroppedAuthError,
    }
}

/// Once a peer is pinned, it stays pinned: no datagram changes it.
pub proof fn lemma_pinned_peer_stays(
    receiver: ReceiverModel,
    peer: PeerAddr,
    allowed_ip: Option<HostIp>,
    src: PeerAddr,
    buf: Seq<u8>,
)
    ensures
        datagram_step(receiver, Some(peer), allowed_ip, src, buf).1 == Some(peer),
{
}

/// A datagram from anywhere but the pinned peer leaves the client as it was.
pub proof fn lemma_other_sources_ignored(
    receiver: ReceiverModel,
    peer: PeerAddr,
    allowed_ip: Option<HostIp>,
    src: PeerAddr,
    buf: Seq<u8>,
)
    requires
        src != peer,
    ensures
        datagram_step(receiver, Some(peer), allowed_ip, src, buf).0 == receiver,
        datagram_step(receiver, Some(peer), allowed_ip, src, buf).2 is IgnoredNotAllowedHost
            || datagram_step(receiver, Some(peer), allowed_ip, src, buf).2 is IgnoredNotPinnedPeer,
{
}

/// Input is only ever dispatched from the pinned peer.
pub proof fn lemma_input_only_from_pinned_peer(
    receiver: ReceiverModel,
    peer: Option<PeerAddr>,
    allowed_ip: Option<HostIp>,
    src: PeerAddr,
    buf: Seq<u8>,
)
    ensures
        (datagram_step(receiver, peer, allowed_ip, src, buf).2 is Events
            || datagram_step(receiver, peer, allowed_ip, src, buf).2 is ReleaseAll) ==> peer == Some(src),
{
}

/// Event type of relative (mouse) motion.
pub const EV_REL: u16 = 2;

/// Event type of key presses and releases.
pub const EV_KEY: u16 = 1;

pub const BTN_LEFT: u16 = 272;

pub const BTN_RIGHT: u16 = 273;

pub const BTN_MIDDLE: u16 = 274;

pub const REL_X: u16 = 0;

pub const REL_Y: u16 = 1;

pub const REL_HWHEEL: u16 = 6;

pub const REL_WHEEL: u16 = 8;

/// Windows wheel units per notch.
pub const WHEEL_DELTA: i32 = 120;

#[derive(Debug, Clone, Copy, PartialEq, Eq, Structural)]
pub enum MouseAction {
    LeftDown,
    LeftUp,
    RightDown,
    RightUp,
    MiddleDown,
    MiddleUp,
    Move,
    Wheel,
    HorizontalWheel,
}

/// One synthesized input for Windows.
#[derive(Debug, Clone, Copy, PartialEq, Eq, Structural)]
pub enum InputCommand {
    Mouse { action: MouseAction, dx: i32, dy: i32, data: i32 },
    Key { vk: u16, extended: bool, up: bool },
}

/// Keys and mouse buttons that the client has pressed and not released.
pub struct InputModel {
    pub keys: Set<(u16, bool)>,
    pub buttons: Set<u16>,
}

pub open spec fn button_action(code: u16, down: bool) -> MouseAction {
    if code == BTN_LEFT {
        if down { MouseAction::LeftDown } else { MouseAction::LeftUp }
    } else if code == BTN_RIGHT {
        if down { MouseAction::RightDown } else { MouseAction::RightUp }
    } else {
        if down { MouseAction::MiddleDown } else { MouseAction::MiddleUp }
    }
}

pub open spec fn mouse(action: MouseAction, dx: i32, dy: i32, data: i32) -> InputCommand {
    InputCommand::Mouse { action, dx, dy, data }
}

/// What the client injects for one event, and what it then holds: mouse
/// buttons go down on any non-zero value; keys with a Windows code go up on
/// zero and down otherwise; motion and wheels pass their value (wheels in
/// Windows units, wrapping like release-mode arithmetic); anything else is
/// dropped.
pub open spec fn event_command(st: InputModel, ev: KvmEvent) -> (InputModel, Option<InputCommand>) {
    if ev.event_type == EV_KEY {
        if ev.code == BTN_LEFT || ev.code == BTN_RIGHT || ev.code == BTN_MIDDLE {
            let down = ev.value != 0;
            let buttons = if down { st.buttons.insert(ev.code) } else { st.buttons.remove(ev.code) };
            (InputModel { keys: st.keys, buttons }, Some(mouse(button_action(ev.code, down), 0, 0, 0)))
        } else if windows_vk(ev.code) is Some {
            let (vk, extended) = windows_vk(ev.code)->0;
            let up = ev.value == 0;
            let keys = if up { st.keys.remove((vk, extended)) } else { st.keys.insert((vk, extended)) };
            (InputModel { keys, buttons: st.buttons }, Some(InputCommand::Key { vk, extended, up }))
        } else {
            (st, None)
        }
    } else if ev.event_type == EV_REL {
        if ev.code == REL_X {
            (st, Some(mouse(MouseAction::Move, ev.value, 0, 0)))
        } else if ev.code == REL_Y {
            (st, Some(mouse(MouseAction::Move, 0, ev.value, 0)))
        } else if ev.code == REL_WHEEL {
            (st, Some(mouse(MouseAction::Wheel, 0, 0, ev.value.wrapping_mul(WHEEL_DELTA))))
        } else if ev.code == REL_HWHEEL {
            (st, Some(mouse(MouseAction::HorizontalWheel, 0, 0, ev.value.wrapping_mul(WHEEL_DELTA))))
        } else {
            (st, None)
        }
    } else {
        (st, None)
    }
}

/// The mouse buttons as Linux key codes with the Windows actions that press
/// and release them: left (272), right (273), middle (274).
pub open spec fn button_table() -> Seq<(u16, MouseAction, MouseAction)> {
    seq![
        (272u16, MouseAction::LeftDown, MouseAction::LeftUp),
        (273u16, MouseAction::RightDown, MouseAction::RightUp),
        (274u16, MouseAction::MiddleDown, MouseAction::MiddleUp),
    ]
}

/// A mouse-button event presses (any non-zero value) or releases (zero) that
/// same button, with no motion or wheel data, and the button is then held
/// exactly when it was pressed; the other held input is untouched.
pub proof fn lemma_buttons_press_themselves(st: InputModel, ev: KvmEvent, i: int)
    requires
        0 <= i < 3,
        ev.event_type == 1,
        ev.code == button_table()[i].0,
    ensures
        event_command(st, ev).1 == Some(InputCommand::Mouse {
            action: if ev.value != 0 { button_table()[i].1 } else { button_table()[i].2 },
            dx: 0,
            dy: 0,
            data: 0,
        }),
        event_command(st, ev).0.buttons.contains(ev.code) <==> ev.value != 0,
        forall|b: u16| b != ev.code ==> (event_command(st, ev).0.buttons.contains(b) <==> st.buttons.contains(b)),
        event_command(st, ev).0.keys == st.keys,
{
}

/// Releasing everything lets go of exactly the held buttons, each with the
/// release action of that same button.
pub proof fn lemma_buttons_released_themselves(buttons: Set<u16>, i: int)
    requires
        0 <= i < 3,
    ensures
        button_releases(buttons).contains(InputCommand::Mouse { action: button_table()[i].2, dx: 0, dy: 0, data: 0 })
            <==> buttons.contains(button_table()[i].0),
{
    let l = if buttons.contains(272) { seq![mouse(MouseAction::LeftUp, 0, 0, 0)] } else { seq![] };
    let r = if buttons.contains(273) { seq![mouse(MouseAction::RightUp, 0, 0, 0)] } else { seq![] };
    let m = if buttons.contains(274) { seq![mouse(MouseAction::MiddleUp, 0, 0, 0)] } else { seq![] };
    let all = button_releases(buttons);
    assert(all == l + r + m);
    let c = InputCommand::Mouse { action: button_table()[i].2, dx: 0, dy: 0, data: 0 };
    if all.contains(c) {
        let j = choose|j: int| 0 <= j < all.len() && all[j] == c;
        if j < l.len() {
            assert(all[j] == l[j]);
        } else if j < l.len() + r.len() {
            assert(all[j] == r[j - l.len()]);
        } else {
            assert(all[j] == m[j - l.len() - r.len()]);
        }
    }
    if buttons.contains(button_table()[i].0) {
        if i == 0 {
            assert(all[0] == c);
        } else if i == 1 {
            assert(all[l.len() as int] == c);
        } else {
            assert(all[(l.len() + r.len()) as int] == c);
        }
    }
}

/// Relative motion (type 2) moves the pointer by the event's value along
/// its axis (code 0 across, code 1 down); the wheels (code 8 vertical,
/// code 6 horizontal) turn by the value in Windows units of 120 per notch,
/// wrapping as release builds do; other motion codes and event types other
/// than keys and motion inject nothing. None of them changes what is held.
pub proof fn lemma_motion_moves(st: InputModel, ev: KvmEvent)
    requires
        ev.event_type != 1,
    ensures
        event_command(st, ev).0 == st,
        ev.event_type == 2 && ev.code == 0 ==> event_command(st, ev).1 == Some(
            InputCommand::Mouse { action: MouseAction::Move, dx: ev.value, dy: 0, data: 0 },
        ),
        ev.event_type == 2 && ev.code == 1 ==> event_command(st, ev).1 == Some(
            InputCommand::Mouse { action: MouseAction::Move, dx: 0, dy: ev.value, data: 0 },
        ),
        ev.event_type == 2 && ev.code == 8 ==> event_command(st, ev).1 == Some(
            InputCommand::Mouse { action: MouseAction::Wheel, dx: 0, dy: 0, data: ev.value.wrapping_mul(120) },
        ),
        ev.event_type == 2 && ev.code == 6 ==> event_command(st, ev).1 == Some(
            InputCommand::Mouse { action: MouseAction::HorizontalWheel, dx: 0, dy: 0, data: ev.value.wrapping_mul(120) },
        ),
        ev.event_type == 2 && ev.code != 0 && ev.code != 1 && ev.code != 6 && ev.code != 8 ==> event_command(st, ev).1 is None,
        ev.event_type != 2 ==> event_command(st, ev).1 is None,
{
}

/// A key event (type 1) of a key other than the mouse buttons injects that
/// key's Windows virtual key, released on value zero and pressed otherwise,
/// and the key is then held exactly when pressed; a key without a Windows
/// key injects nothing.
pub proof fn lemma_keys_press_themselves(st: InputModel, ev: KvmEvent)
    requires
        ev.event_type == 1,
        ev.code != 272 && ev.code != 273 && ev.code != 274,
    ensures
        windows_vk(ev.code) matches Some(k) ==> event_command(st, ev).1 == Some(
            InputCommand::Key { vk: k.0, extended: k.1, up: ev.value == 0 },
        ) && (event_command(st, ev).0.keys.contains(k) <==> ev.value != 0)
            && event_command(st, ev).0.buttons == st.buttons,
        windows_vk(ev.code) is None ==> event_command(st, ev) == (st, None::<InputCommand>),
{
}

/// Button releases for the held buttons: left, then right, then middle.
pub open spec fn button_releases(buttons: Set<u16>) -> Seq<InputCommand> {
    (if buttons.contains(BTN_LEFT) { seq![mouse(MouseAction::LeftUp, 0, 0, 0)] } else { seq![] })
        + (if buttons.contains(BTN_RIGHT) { seq![mouse(MouseAction::RightUp, 0, 0, 0)] } else { seq![] })
        + (if buttons.contains(BTN_MIDDLE) { seq![mouse(MouseAction::MiddleUp, 0, 0, 0)] } else { seq![] })
}

pub open spec fn key_release(k: (u16, bool)) -> InputCommand {
    InputCommand::Key { vk: k.0, extended: k.1, up: true }
}

/// Releasing everything injects only releases: each command either lets a
/// key go (the key of the same place in `order`, marked up) or is one of
/// the three button releases; and every held key is let go.
pub proof fn lemma_release_only_releases(order: Seq<(u16, bool)>, buttons: Set<u16>)
    ensures
        ({
            let cmds = order.map_values(|k: (u16, bool)| key_release(k)) + button_releases(buttons);
            &&& forall|j: int| 0 <= j < order.len() ==> #[trigger] cmds[j] == (InputCommand::Key {
                vk: order[j].0,
                extended: order[j].1,
                up: true,
            })
            &&& forall|j: int|
                order.len() <= j < cmds.len() ==> (#[trigger] cmds[j] == InputCommand::Mouse {
                    action: MouseAction::LeftUp,
                    dx: 0,
                    dy: 0,
                    data: 0,
                } || cmds[j] == InputCommand::Mouse { action: MouseAction::RightUp, dx: 0, dy: 0, data: 0 }
                    || cmds[j] == InputCommand::Mouse { action: MouseAction::MiddleUp, dx: 0, dy: 0, data: 0 })
            &&& cmds.len() == order.len() + button_releases(buttons).len()
        }),
{
    let keys = order.map_values(|k: (u16, bool)| key_release(k));
    let b = button_releases(buttons);
    let cmds = keys + b;
    let l = if buttons.contains(272) { seq![mouse(MouseAction::LeftUp, 0, 0, 0)] } else { seq![] };
    let r = if buttons.contains(273) { seq![mouse(MouseAction::RightUp, 0, 0, 0)] } else { seq![] };
    let m = if buttons.contains(274) { seq![mouse(MouseAction::MiddleUp, 0, 0, 0)] } else { seq![] };
    assert(b == l + r + m);
    assert forall|j: int| order.len() <= j < cmds.len() implies (#[trigger] cmds[j] == InputCommand::Mouse {
        action: MouseAction::LeftUp,
        dx: 0,
        dy: 0,
        data: 0,
    } || cmds[j] == InputCommand::Mouse { action: MouseAction::RightUp, dx: 0, dy: 0, data: 0 }
        || cmds[j] == InputCommand::Mouse { action: MouseAction::MiddleUp, dx: 0, dy: 0, data: 0 }) by {
        let t = j - order.len();
        assert(cmds[j] == b[t]);
        if t < l.len() {
            assert(b[t] == l[t]);
        } else if t < l.len() + r.len() {
            assert(b[t] == r[t - l.len()]);
        } else {
            assert(b[t] == m[t - l.len() - r.len()]);
        }
    }
}

/// The keys and mouse buttons that the client holds down.
pub struct InputTracker {
    // A list without repeats rather than a `HashSet<(u16, bool)>`: vstd
    // specifies what `HashSet` holds only for key types whose hashing and
    // equality it models (integers, `bool`, boxes of them), not for tuples,
    // so not even that an inserted key is contained could be proved.
    pressed_keys: Vec<(u16, bool)>,
    pressed_buttons: HashSet<u16>,
}

impl View for InputTracker {
    type V = InputModel;

    closed spec fn view(&self) -> InputModel {
        InputModel { keys: self.pressed_keys@.to_set(), buttons: self.pressed_buttons@ }
    }
}

impl InputTracker {
    /// Each held key is listed once.
    pub closed spec fn wf(self) -> bool {
        self.pressed_keys@.no_duplicates()
    }

    pub fn new() -> (t: Self)
        ensures
            t.wf(),
            t@.keys == Set::<(u16, bool)>::empty(),
            t@.buttons == Set::<u16>::empty(),
    {
        let t = InputTracker { pressed_keys: Vec::new(), pressed_buttons: HashSet::new() };
        assert(t.pressed_keys@.to_set() =~= Set::<(u16, bool)>::empty());
        t
    }

    fn hold_key(&mut self, key: (u16, bool))
        requires
            old(self).wf(),
        ensures
            final(self).wf(),
            final(self)@.keys == old(self)@.keys.insert(key),
            final(self)@.buttons == old(self)@.buttons,
    {
        let n = self.pressed_keys.len();
        let mut i: usize = 0;
        while i < n
            invariant
                n == self.pressed_keys@.len(),
                self.pressed_keys@.no_duplicates(),
                i <= n,
                forall|j: int| 0 <= j < i ==> self.pressed_keys@[j] != key,
            decreases n - i,
        {
            let k = self.pressed_keys[i];
            if k.0 == key.0 && k.1 == key.1 {
                assert(self.pressed_keys@.to_set() =~= self.pressed_keys@.to_set().insert(key));
                return;
            }
            i = i + 1;
        }
        let ghost before = self.pressed_keys@;
        let mut keys = Vec::new();
        std::mem::swap(&mut keys, &mut self.pressed_keys);
        keys.push(key);
        assert(keys@ == before.push(key));
        assert(!before.contains(key));
        assert(keys@.no_duplicates());
        proof {
            before.lemma_push_to_set_commute(key);
        }
        self.pressed_keys = keys;
    }

    fn let_go_key(&mut self, key: (u16, bool))
        requires
            old(self).wf(),
        ensures
            final(self).wf(),
            final(self)@.keys == old(self)@.keys.remove(key),
            final(self)@.buttons == old(self)@.buttons,
    {
        let n = self.pressed_keys.len();
        let mut i: usize = 0;
        while i < n
            invariant
                n == self.pressed_keys@.len(),
                self.pressed_keys@.no_duplicates(),
                i <= n,
                forall|j: int| 0 <= j < i ==> self.pressed_keys@[j] != key,
                self.pressed_keys@ == old(self).pressed_keys@,
                self.pressed_buttons@ == old(self).pressed_buttons@,
            decreases n - i,
        {
            let k = self.pressed_keys[i];
            if k.0 == key.0 && k.1 == key.1 {
                let ghost before = self.pressed_keys@;
                let mut keys = Vec::new();
                std::mem::swap(&mut keys, &mut self.pressed_keys);
                keys.remove(i);
                assert(keys@ == before.remove(i as int));
                assert forall|a: int, b: int| 0 <= a < b < keys@.len() implies keys@[a] != keys@[b] by {
                    let a2 = if a < i { a } else { a + 1 };
                    let b2 = if b < i { b } else { b + 1 };
                    assert(keys@[a] == before[a2] && keys@[b] == before[b2]);
                }
                assert forall|x: (u16, bool)| keys@.to_set().contains(x) <==> before.to_set().remove(key).contains(x) by {
                    if before.contains(x) && x != key {
                        let j = choose|j: int| 0 <= j < before.len() && before[j] == x;
                        assert(j != i);
                        let j2 = if j < i { j } else { j - 1 };
                        assert(keys@[j2] == x);
                    }
                    if keys@.contains(x) {
                        let j = choose|j: int| 0 <= j < keys@.len() && keys@[j] == x;
                        let j2 = if j < i { j } else { j + 1 };
                        assert(before[j2] == x);
                        assert(j2 != i as int);
                    }
                }
                self.pressed_keys = keys;
                assert(self.pressed_keys@.to_set() =~= before.to_set().remove(key));
                return;
            }
            i = i + 1;
        }
        assert(self.pressed_keys@.to_set() =~= self.pressed_keys@.to_set().remove(key));
    }

    /// The input to inject for one event, with the held keys and buttons
    /// updated.
    pub fn apply_event(&mut self, ev: KvmEvent) -> (cmd: Option<InputCommand>)
        requires
            old(self).wf(),
        ensures
            final(self).wf(),
            (final(self)@, cmd) == event_command(old(self)@, ev),
    {
        if ev.event_type == EV_KEY {
            if ev.code == BTN_LEFT || ev.code == BTN_RIGHT || ev.code == BTN_MIDDLE {
                let down = ev.value != 0;
                let action = if ev.code == BTN_LEFT {
                    if down { MouseAction::LeftDown } else { MouseAction::LeftUp }
                } else if ev.code == BTN_RIGHT {
                    if down { MouseAction::RightDown } else { MouseAction::RightUp }
                } else {
                    if down { MouseAction::MiddleDown } else { MouseAction::MiddleUp }
                };
                if down {
                    self.pressed_buttons.insert(ev.code);
                } else {
                    self.pressed_buttons.remove(&ev.code);
                }
                return Some(InputCommand::Mouse { action, dx: 0, dy: 0, data: 0 });
            }
            match evdev_to_windows_vk(ev.code) {
                Some((vk, extended)) => {
                    let up = ev.value == 0;
                    if up {
                        self.let_go_key((vk, extended));
                    } else {
                        self.hold_key((vk, extended));
                    }
                    Some(InputCommand::Key { vk, extended, up })
                },
                None => None,
            }
        } else if ev.event_type == EV_REL {
            if ev.code == REL_X {
                Some(InputCommand::Mouse { action: MouseAction::Move, dx: ev.value, dy: 0, data: 0 })
            } else if ev.code == REL_Y {
                Some(InputCommand::Mouse { action: MouseAction::Move, dx: 0, dy: ev.value, data: 0 })
            } else if ev.code == REL_WHEEL {
                Some(InputCommand::Mouse { action: MouseAction::Wheel, dx: 0, dy: 0, data: ev.value.wrapping_mul(WHEEL_DELTA) })
            } else if ev.code == REL_HWHEEL {
                Some(InputCommand::Mouse { action: MouseAction::HorizontalWheel, dx: 0, dy: 0, data: ev.value.wrapping_mul(WHEEL_DELTA) })
            } else {
                None
            }
        } else {
            None
        }
    }

    /// Releases everything held: each held key once (in no promised order),
    /// then the held mouse buttons; afterwards nothing is held.
    pub fn release_all(&mut self) -> (cmds: Vec<InputCommand>)
        requires
            old(self).wf(),
        ensures
            final(self).wf(),
            final(self)@.keys == Set::<(u16, bool)>::empty(),
            final(self)@.buttons == Set::<u16>::empty(),
            exists|order: Seq<(u16, bool)>|
                #![trigger order.to_set()]
                order.no_duplicates() && order.to_set() == old(self)@.keys
                    && cmds@ == order.map_values(|k: (u16, bool)| key_release(k)) + button_releases(old(self)@.buttons),
    {
        let ghost order = self.pressed_keys@;
        let mut cmds: Vec<InputCommand> = Vec::new();
        let n = self.pressed_keys.len();
        let mut i: usize = 0;
        while i < n
            invariant
                n == self.pressed_keys@.len(),
                order == self.pressed_keys@,
                order.no_duplicates(),
                i <= n,
                cmds@ == order.take(i as int).map_values(|k: (u16, bool)| key_release(k)),
            decreases n - i,
        {
            let k = self.pressed_keys[i];
            cmds.push(InputCommand::Key { vk: k.0, extended: k.1, up: true });
            assert(order.take(i + 1) =~= order.take(i as int).push(k));
            assert(cmds@ =~= order.take(i + 1).map_values(|k: (u16, bool)| key_release(k)));
            i = i + 1;
        }
        assert(order.take(n as int) =~= order);
        let ghost keys_part = cmds@;
        let ghost buttons = self.pressed_buttons@;
        if self.pressed_buttons.contains(&BTN_LEFT) {
            cmds.push(InputCommand::Mouse { action: MouseAction::LeftUp, dx: 0, dy: 0, data: 0 });
        }
        if self.pressed_buttons.contains(&BTN_RIGHT) {
            cmds.push(InputCommand::Mouse { action: MouseAction::RightUp, dx: 0, dy: 0, data: 0 });
        }
        if self.pressed_buttons.contains(&BTN_MIDDLE) {
            cmds.push(InputCommand::Mouse { action: MouseAction::MiddleUp, dx: 0, dy: 0, data: 0 });
        }
        assert(cmds@ =~= keys_part + button_releases(buttons));
        self.pressed_keys = Vec::new();
        self.pressed_buttons.clear();
        assert(self.pressed_keys@.to_set() =~= Set::<(u16, bool)>::empty());
        cmds
    }
}

} // verus!
