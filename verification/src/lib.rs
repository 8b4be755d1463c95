//! Protocol, key handling and input-forwarding logic of a keyboard/mouse
//! sharing tool: a Linux host captures input events and sends them, sealed
//! with XChaCha20-Poly1305 under a pre-shared key, to a Windows client.

pub mod client;
pub mod crypto;
pub mod host;
pub mod keys;
pub mod primitives;
pub mod protocol;
pub mod replay;
pub mod text;
pub mod wire;

pub use client::{evdev_to_windows_vk, handle_incoming_datagram, Args, HostIp, PacketAction, PeerAddr};
pub use crypto::{CryptoError, PacketReceiver, PacketSender, MAGIC};
pub use host::{key_name_to_codes, parse_hotkey, process_events};
pub use keys::{generate_key, key_to_hex, parse_key, resolve_key, KeyError};
pub use protocol::{deserialize_packet, serialize_packet, KvmEvent, KvmPacket, WireError, PROTOCOL_VERSION};
pub use replay::{ReplayError, ReplayWindow};
