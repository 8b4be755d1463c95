# kvm_common

Keyboard and mouse sharing between a Linux host and a Windows client, with
its protocol, key handling and input logic verified with Verus.

## Layout

- `src/protocol.rs`: packets and their byte encoding, with the laws that
  decoding an encoding gives the packet back and that decoded bytes start
  with the packet's encoding.
- `src/wire.rs`: little-endian integers as bytes.
- `src/replay.rs`: the 128-number replay window, the law that a number
  accepted once is never accepted again, and its answers stated over the
  numbers accepted so far.
- `src/crypto.rs`: sealing packets into datagrams and opening them, the
  receiver's session rules, the end-to-end replay law, and the delivery of
  a whole session in order.
- `src/primitives.rs`: XChaCha20-Poly1305, SHA-256 and the system random
  source, each behind one function whose contract is trusted.
- `src/keys.rs`: the pre-shared key in hex, from a passphrase, and where it
  is taken from.
- `src/text.rs`: whitespace, trimming, decimal numbers and lowercase.
- `src/host.rs`: the toggle hotkey, what the host sends for a batch of
  captured events, when it looks for devices and which it keeps or opens,
  and the laws that generic modifier names cover both sides and that host
  and client agree on every letter key.
- `src/client.rs`: what the client does with a datagram, and the keyboard
  and mouse input it injects.
- `app/`: the two programs (`kvm-host`, `kvm-client`, chosen by the name
  the binary runs under or by `host`/`client` as first argument): devices,
  sockets, signals, the command line and Windows input injection. Both
  take the pre-shared key (`--key`, `--key-file` or `WAYKVM_KEY`); the host
  seals every packet with it.
- `tests/`: tests of the library, run against the real outside crates.
