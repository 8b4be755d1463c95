//! Sealed datagrams: a packet framed with a session id and a sequence
//! number, encrypted and authenticated under a pre-shared key.
//!
//! A datagram is `MAGIC`, a 24-byte nonce, then the XChaCha20-Poly1305
//! ciphertext of `session_id (u64 LE) | seq (u64 LE) | packet bytes`.
use crate::primitives::{
    aead_decrypt, aead_encrypt, aead_len_ok, aead_open, aead_seal, random_bytes, MAX_SEALED_PLAINTEXT, TAG_SIZE,
};
use crate::protocol::{
    deserialize_packet, decode_packet, encode_packet, encoded_len, lemma_decode_encode,
    serialize_packet, wire_error_text, KvmPacket, PacketModel, WireError, PROTOCOL_VERSION,
};
use crate::replay::{empty_window, replay_error_text, window_step, ReplayError, ReplayWindow, WindowModel};
use crate::text::{decimal_text, push_decimal};
use crate::wire::{lemma_u64_le_read, push_u64_le, read_u64_le, u64_at, u64_le};
use vstd::prelude::*;

verus! {

/// First four bytes of every datagram.
pub const MAGIC: [u8; 4] = [0x57, 0x4b, 0x30, 0x31];

/// Bytes in a nonce.
pub const NONCE_SIZE: usize = 24;

/// Bytes of the session id and the sequence number ahead of the packet.
pub const FRAME_HEADER_SIZE: usize = 16;

/// Shortest datagram that can hold a frame header: magic, nonce, tag,
/// session id and sequence number.
pub const MIN_DATAGRAM_SIZE: usize = 60;

pub open spec fn magic_bytes() -> Seq<u8> {
    seq![0x57u8, 0x4bu8, 0x30u8, 0x31u8]
}

#[derive(Debug, Clone, Copy, PartialEq, Eq, Structural)]
pub enum CryptoError {
    /// The datagram, or the plaintext inside it, is shorter than a frame.
    TooShort(usize),
    InvalidMagic,
    /// The ciphertext did not authenticate under the key (or could not be
    /// produced).
    AuthFailed,
    Serialization(WireError),
    Replay(ReplayError),
    /// A handshake for a session older than the current one.
    InvalidSession,
    /// Input that belongs to no established session.
    HandshakeRequired,
    /// The system random source failed.
    RandomUnavailable,
}

pub open spec fn crypto_error_text(e: CryptoError) -> Seq<char> {
    match e {
        CryptoError::TooShort(len) => "Datagram too short: "@ + decimal_text(len as nat) + " bytes"@,
        CryptoError::InvalidMagic => "Invalid magic bytes in datagram header"@,
        CryptoError::AuthFailed => "Authentication or decryption failed (invalid key, tag, or corrupted packet)"@,
        CryptoError::Serialization(w) => "Packet serialization error: "@ + wire_error_text(w),
        CryptoError::Replay(r) => "Replay check failed: "@ + replay_error_text(r),
        CryptoError::InvalidSession => "Invalid or stale session ID"@,
        CryptoError::HandshakeRequired => "Handshake required before receiving input events"@,
        CryptoError::RandomUnavailable => "System random source unavailable"@,
    }
}

impl CryptoError {
    /// The error as a sentence for people.
    pub fn message(&self) -> (r: String)
        ensures
            r@ == crypto_error_text(*self),
    {
        match self {
            CryptoError::TooShort(len) => {
                let mut s = "Datagram too short: ".to_owned();
                push_decimal(&mut s, *len as u64);
                s.append(" bytes");
                s
            },
            CryptoError::InvalidMagic => "Invalid magic bytes in datagram header".to_owned(),
            CryptoError::AuthFailed => "Authentication or decryption failed (invalid key, tag, or corrupted packet)".to_owned(),
            CryptoError::Serialization(w) => {
                let mut s = "Packet serialization error: ".to_owned();
                let inner = w.message();
                s.append(inner.as_str());
                s
            },
            CryptoError::Replay(r) => {
                let mut s = "Replay check failed: ".to_owned();
                s.append(r.message());
                s
            },
            CryptoError::InvalidSession => "Invalid or stale session ID".to_owned(),
            CryptoError::HandshakeRequired => "Handshake required before receiving input events".to_owned(),
            CryptoError::RandomUnavailable => "System random source unavailable".to_owned(),
        }
    }
}

impl From<ReplayError> for CryptoError {
    fn from(e: ReplayError) -> (r: Self) {
        CryptoError::Replay(e)
    }
}

impl vstd::std_specs::convert::FromSpecImpl<ReplayError> for CryptoError {
    open spec fn obeys_from_spec() -> bool {
        true
    }

    open spec fn from_spec(e: ReplayError) -> Self {
        CryptoError::Replay(e)
    }
}

impl From<WireError> for CryptoError {
    fn from(e: WireError) -> (r: Self) {
        CryptoError::Serialization(e)
    }
}

impl vstd::std_specs::convert::FromSpecImpl<WireError> for CryptoError {
    open spec fn obeys_from_spec() -> bool {
        true
    }

    open spec fn from_spec(e: WireError) -> Self {
        CryptoError::Serialization(e)
    }
}

/// The plaintext sealed in a datagram.
pub open spec fn frame_plaintext(session_id: u64, seq: u64, p: PacketModel) -> Seq<u8> {
    u64_le(session_id) + u64_le(seq) + encode_packet(p)
}

/// The datagram that sealing packet `p` as number `seq` of session
/// `session_id` under `key` with `nonce` gives.
pub open spec fn sealed_datagram(
    key: Seq<u8>,
    nonce: Seq<u8>,
    session_id: u64,
    seq: u64,
    p: PacketModel,
) -> Seq<u8> {
    magic_bytes() + nonce + aead_seal(key, nonce, frame_plaintext(session_id, seq, p))
}

/// The packet can be sealed: its frame fits the cipher's limit.
pub open spec fn sealable(p: PacketModel) -> bool {
    aead_len_ok(FRAME_HEADER_SIZE + encoded_len(p))
}

/// A packet small enough that every buffer around it fits in memory.
pub open spec fn packet_within_limits(p: PacketModel) -> bool {
    encoded_len(p) + MIN_DATAGRAM_SIZE <= usize::MAX
}

pub open spec fn wrapping_next(n: u64) -> u64 {
    if n == u64::MAX {
        0
    } else {
        (n + 1) as u64
    }
}

pub open spec fn bytes_result(r: Result<Vec<u8>, CryptoError>) -> Result<Seq<u8>, CryptoError> {
    match r {
        Ok(v) => Ok(v@),
        Err(e) => Err(e),
    }
}

pub open spec fn packet_result(r: Result<KvmPacket, CryptoError>) -> Result<PacketModel, CryptoError> {
    match r {
        Ok(p) => Ok(p@),
        Err(e) => Err(e),
    }
}

pub struct SenderModel {
    pub key: Seq<u8>,
    pub session_id: u64,
    pub next_seq: u64,
}

/// Sealing `p` with `nonce`: the sender after it and the datagram or error.
pub open spec fn seal_step(s: SenderModel, p: PacketModel, nonce: Seq<u8>) -> (SenderModel, Result<Seq<u8>, CryptoError>) {
    let after = SenderModel { key: s.key, session_id: s.session_id, next_seq: wrapping_next(s.next_seq) };
    if sealable(p) {
        (after, Ok(sealed_datagram(s.key, nonce, s.session_id, s.next_seq, p)))
    } else {
        (after, Err(CryptoError::AuthFailed))
    }
}

/// A datagram: the magic, the nonce, then the ciphertext.
pub fn assemble_datagram(nonce: &[u8; 24], ciphertext: Vec<u8>) -> (d: Vec<u8>)
    ensures
        d@ == magic_bytes() + nonce@ + ciphertext@,
{
    let mut datagram: Vec<u8> = Vec::new();
    datagram.push(MAGIC[0]);
    datagram.push(MAGIC[1]);
    datagram.push(MAGIC[2]);
    datagram.push(MAGIC[3]);
    let mut i: usize = 0;
    while i < NONCE_SIZE
        invariant
            i <= NONCE_SIZE,
            datagram@ == magic_bytes() + nonce@.subrange(0, i as int),
        decreases NONCE_SIZE - i,
    {
        datagram.push(nonce[i]);
        i = i + 1;
        assert(datagram@ =~= magic_bytes() + nonce@.subrange(0, i as int));
    }
    assert(nonce@.subrange(0, 24) =~= nonce@);
    let mut ct = ciphertext;
    datagram.append(&mut ct);
    datagram
}

pub struct PacketSender {
    key: [u8; 32],
    session_id: u64,
    next_seq: u64,
}

impl View for PacketSender {
    type V = SenderModel;

    closed spec fn view(&self) -> SenderModel {
        SenderModel { key: self.key@, session_id: self.session_id, next_seq: self.next_seq }
    }
}

impl PacketSender {
    pub fn new(key: &[u8; 32], session_id: u64) -> (s: Self)
        ensures
            s@ == (SenderModel { key: key@, session_id, next_seq: 0 }),
    {
        Self { key: *key, session_id, next_seq: 0 }
    }

    /// Seals `packet` as the next number of this session, with the given
    /// nonce. The sequence number advances whatever the outcome.
    pub fn seal_packet(&mut self, packet: &KvmPacket, nonce: [u8; 24]) -> (r: Result<Vec<u8>, CryptoError>)
        requires
            packet_within_limits(packet@),
        ensures
            final(self)@ == seal_step(old(self)@, packet@, nonce@).0,
            bytes_result(r) == seal_step(old(self)@, packet@, nonce@).1,
            r is Ok ==> seal_well_formed(
                old(self)@.key,
                nonce@,
                frame_plaintext(old(self)@.session_id, old(self)@.next_seq, packet@),
            ),
    {
        let serialized = match serialize_packet(packet) {
            Ok(bytes) => bytes,
            Err(e) => {
                return Err(CryptoError::Serialization(e));
            },
        };
        let seq = self.next_seq;
        self.next_seq = self.next_seq.wrapping_add(1);

        let mut plaintext: Vec<u8> = Vec::new();
        push_u64_le(&mut plaintext, self.session_id);
        push_u64_le(&mut plaintext, seq);
        let mut body = serialized;
        plaintext.append(&mut body);
        assert(plaintext@ =~= frame_plaintext(self.session_id, seq, packet@));
        if plaintext.len() as u64 > MAX_SEALED_PLAINTEXT {
            return Err(CryptoError::AuthFailed);
        }

        let ciphertext = match aead_encrypt(&self.key, &nonce, plaintext.as_slice()) {
            Some(c) => c,
            None => {
                return Err(CryptoError::AuthFailed);
            },
        };

        let datagram = assemble_datagram(&nonce, ciphertext);
        assert(datagram@ =~= sealed_datagram(self.key@, nonce@, self.session_id, seq, packet@));
        Ok(datagram)
    }

    /// Seals `packet` as the next number of this session, with a fresh
    /// random nonce.
    pub fn encrypt_packet(&mut self, packet: &KvmPacket) -> (r: Result<Vec<u8>, CryptoError>)
        requires
            packet_within_limits(packet@),
        ensures
            r == Err::<Vec<u8>, CryptoError>(CryptoError::RandomUnavailable) ==> final(self)@ == old(self)@,
            r != Err::<Vec<u8>, CryptoError>(CryptoError::RandomUnavailable) ==> exists|nonce: Seq<u8>|
                nonce.len() == NONCE_SIZE && (final(self)@, bytes_result(r)) == #[trigger] seal_step(old(self)@, packet@, nonce)
                    && (r is Ok ==> seal_well_formed(
                    old(self)@.key,
                    nonce,
                    frame_plaintext(old(self)@.session_id, old(self)@.next_seq, packet@),
                )),
    {
        let random = match random_bytes(NONCE_SIZE) {
            Some(v) => v,
            None => {
                return Err(CryptoError::RandomUnavailable);
            },
        };
        let mut nonce = [0u8; 24];
        let mut i: usize = 0;
        while i < NONCE_SIZE
            invariant
                i <= NONCE_SIZE,
                random@.len() == NONCE_SIZE,
                forall|j: int| 0 <= j < i ==> nonce@[j] == random@[j],
            decreases NONCE_SIZE - i,
        {
            nonce[i] = random[i];
            i = i + 1;
        }
        let r = self.seal_packet(packet, nonce);
        assert(r != Err::<Vec<u8>, CryptoError>(CryptoError::RandomUnavailable));
        r
    }

    pub fn session_id(&self) -> (r: u64)
        ensures
            r == self@.session_id,
    {
        self.session_id
    }

    pub fn next_seq(&self) -> (r: u64)
        ensures
            r == self@.next_seq,
    {
        self.next_seq
    }
}

pub struct ReceiverModel {
    pub key: Seq<u8>,
    pub session: Option<u64>,
    pub window: WindowModel,
}

/// The window's answer to `seq`, with the receiver updated to it.
pub open spec fn replay_check(st: ReceiverModel, seq: u64, p: PacketModel) -> (ReceiverModel, Result<PacketModel, CryptoError>) {
    let (w, r) = window_step(st.window, seq);
    (
        ReceiverModel { key: st.key, session: st.session, window: w },
        match r {
            Ok(()) => Ok(p),
            Err(e) => Err(CryptoError::Replay(e)),
        },
    )
}

/// What the receiver does with an authentic frame: handshakes open (or
/// renew) a session, which must be newer than the current one; other packets
/// must belong to the current session; both pass the replay window.
/// A handshake of another protocol version is handed back untouched.
pub open spec fn accept_step(st: ReceiverModel, session_id: u64, seq: u64, p: PacketModel) -> (ReceiverModel, Result<PacketModel, CryptoError>) {
    match p {
        PacketModel::Handshake { version } => {
            if version != PROTOCOL_VERSION {
                (st, Ok(p))
            } else if st.session == Some(session_id) {
                replay_check(st, seq, p)
            } else if st.session matches Some(prev) && session_id <= prev {
                (st, Err(CryptoError::InvalidSession))
            } else {
                replay_check(
                    ReceiverModel { key: st.key, session: Some(session_id), window: empty_window() },
                    seq,
                    p,
                )
            }
        },
        _ => {
            if st.session != Some(session_id) {
                (st, Err(CryptoError::HandshakeRequired))
            } else {
                replay_check(st, seq, p)
            }
        },
    }
}

/// What the receiver does with a decrypted frame: read the session id, the
/// sequence number and the packet, then `accept_step`.
pub open spec fn frame_step(st: ReceiverModel, pt: Seq<u8>) -> (ReceiverModel, Result<PacketModel, CryptoError>) {
    if pt.len() < FRAME_HEADER_SIZE {
        (st, Err(CryptoError::TooShort(pt.len() as usize)))
    } else {
        match decode_packet(pt.subrange(16, pt.len() as int)) {
            Err(e) => (st, Err(CryptoError::Serialization(e))),
            Ok(p) => accept_step(st, u64_at(pt, 0), u64_at(pt, 8), p),
        }
    }
}

/// What the receiver does with a datagram: check its length and magic,
/// authenticate and decrypt it, read the frame, then `accept_step`.
pub open spec fn open_step(st: ReceiverModel, d: Seq<u8>) -> (ReceiverModel, Result<PacketModel, CryptoError>) {
    if d.len() < MIN_DATAGRAM_SIZE {
        (st, Err(CryptoError::TooShort(d.len() as usize)))
    } else if d.subrange(0, 4) != magic_bytes() {
        (st, Err(CryptoError::InvalidMagic))
    } else if !aead_len_ok(d.len() - 28 - TAG_SIZE) {
        (st, Err(CryptoError::AuthFailed))
    } else {
        match aead_open(st.key, d.subrange(4, 28), d.subrange(28, d.len() as int)) {
            None => (st, Err(CryptoError::AuthFailed)),
            Some(pt) => frame_step(st, pt),
        }
    }
}

pub struct PacketReceiver {
    key: [u8; 32],
    current_session_id: Option<u64>,
    replay_window: ReplayWindow,
}

impl View for PacketReceiver {
    type V = ReceiverModel;

    closed spec fn view(&self) -> ReceiverModel {
        ReceiverModel { key: self.key@, session: self.current_session_id, window: self.replay_window@ }
    }
}

impl PacketReceiver {
    pub fn new(key: &[u8; 32]) -> (r: Self)
        ensures
            r@ == (ReceiverModel { key: key@, session: None, window: empty_window() }),
    {
        Self { key: *key, current_session_id: None, replay_window: ReplayWindow::new() }
    }

    pub fn current_session_id(&self) -> (r: Option<u64>)
        ensures
            r == self@.session,
    {
        self.current_session_id
    }

    fn replay_check(&mut self, seq: u64, packet: KvmPacket) -> (r: Result<KvmPacket, CryptoError>)
        ensures
            (final(self)@, packet_result(r)) == replay_check(old(self)@, seq, packet@),
    {
        match self.replay_window.check_and_update(seq) {
            Ok(()) => Ok(packet),
            Err(e) => Err(CryptoError::Replay(e)),
        }
    }

    fn accept(&mut self, session_id: u64, seq: u64, packet: KvmPacket) -> (r: Result<KvmPacket, CryptoError>)
        ensures
            (final(self)@, packet_result(r)) == accept_step(old(self)@, session_id, seq, packet@),
    {
        match &packet {
            KvmPacket::Handshake { version } => {
                if *version != PROTOCOL_VERSION {
                    return Ok(packet);
                }
                let same = match self.current_session_id {
                    Some(cur) => cur == session_id,
                    None => false,
                };
                if !same {
                    if let Some(prev) = self.current_session_id {
                        if session_id <= prev {
                            return Err(CryptoError::InvalidSession);
                        }
                    }
                    self.current_session_id = Some(session_id);
                    self.replay_window.reset();
                }
                self.replay_check(seq, packet)
            },
            _ => {
                let same = match self.current_session_id {
                    Some(cur) => cur == session_id,
                    None => false,
                };
                if !same {
                    return Err(CryptoError::HandshakeRequired);
                }
                self.replay_check(seq, packet)
            },
        }
    }

    /// Authenticates, decrypts and checks one datagram.
    pub fn decrypt_packet(&mut self, datagram: &[u8]) -> (r: Result<KvmPacket, CryptoError>)
        ensures
            (final(self)@, packet_result(r)) == open_step(old(self)@, datagram@),
            forall|nonce: Seq<u8>, session_id: u64, seq: u64, p: PacketModel|
                #[trigger] sealed_by(old(self)@.key, nonce, session_id, seq, p, datagram@)
                    ==> (final(self)@, packet_result(r)) == accept_step(old(self)@, session_id, seq, p),
    {
        let len = datagram.len();
        if len < MIN_DATAGRAM_SIZE {
            proof {
                assert forall|nonce: Seq<u8>, session_id: u64, seq: u64, p: PacketModel|
                    !#[trigger] sealed_by(self@.key, nonce, session_id, seq, p, datagram@) by {
                    if sealed_by(self@.key, nonce, session_id, seq, p, datagram@) {
                        lemma_sealed_shape(self@.key, nonce, session_id, seq, p);
                    }
                }
            }
            return Err(CryptoError::TooShort(len));
        }
        if datagram[0] != MAGIC[0] || datagram[1] != MAGIC[1] || datagram[2] != MAGIC[2]
            || datagram[3] != MAGIC[3] {
            proof {
                assert(datagram@.subrange(0, 4) != magic_bytes()) by {
                    if datagram@.subrange(0, 4) == magic_bytes() {
                        assert(datagram@[0] == datagram@.subrange(0, 4)[0]);
                        assert(datagram@[1] == datagram@.subrange(0, 4)[1]);
                        assert(datagram@[2] == datagram@.subrange(0, 4)[2]);
                        assert(datagram@[3] == datagram@.subrange(0, 4)[3]);
                    }
                }
                assert forall|nonce: Seq<u8>, session_id: u64, seq: u64, p: PacketModel|
                    !#[trigger] sealed_by(self@.key, nonce, session_id, seq, p, datagram@) by {
                    if sealed_by(self@.key, nonce, session_id, seq, p, datagram@) {
                        lemma_sealed_shape(self@.key, nonce, session_id, seq, p);
                    }
                }
            }
            return Err(CryptoError::InvalidMagic);
        }
        assert(datagram@.subrange(0, 4) =~= magic_bytes());
        let mut nonce = [0u8; 24];
        let mut i: usize = 0;
        while i < NONCE_SIZE
            invariant
                i <= NONCE_SIZE,
                len == datagram@.len(),
                len >= MIN_DATAGRAM_SIZE,
                forall|j: int| 0 <= j < i ==> nonce@[j] == datagram@[4 + j],
            decreases NONCE_SIZE - i,
        {
            nonce[i] = datagram[4 + i];
            i = i + 1;
        }
        assert(nonce@ =~= datagram@.subrange(4, 28));
        let ciphertext = slice_tail(datagram, 28);
        if ciphertext.len() as u64 > MAX_SEALED_PLAINTEXT + 16 {
            proof {
                assert forall|nonce: Seq<u8>, session_id: u64, seq: u64, p: PacketModel|
                    !#[trigger] sealed_by(self@.key, nonce, session_id, seq, p, datagram@) by {
                    if sealed_by(self@.key, nonce, session_id, seq, p, datagram@) {
                        lemma_sealed_shape(self@.key, nonce, session_id, seq, p);
                    }
                }
            }
            return Err(CryptoError::AuthFailed);
        }
        let decrypted = aead_decrypt(&self.key, &nonce, ciphertext);
        proof {
            assert forall|nonce: Seq<u8>, session_id: u64, seq: u64, p: PacketModel|
                #[trigger] sealed_by(self@.key, nonce, session_id, seq, p, datagram@)
                implies open_step(self@, datagram@) == accept_step(self@, session_id, seq, p) by {
                lemma_sealed_shape(self@.key, nonce, session_id, seq, p);
                lemma_open_frame(self@, session_id, seq, p);
                let pt = frame_plaintext(session_id, seq, p);
                assert(aead_seal(self@.key, nonce, pt) == ciphertext@);
            }
        }
        let plaintext = match decrypted {
            Some(p) => p,
            None => {
                return Err(CryptoError::AuthFailed);
            },
        };
        self.open_frame(plaintext.as_slice())
    }

    /// Reads an authenticated, decrypted frame and checks it against the
    /// session and the replay window.
    pub fn open_frame(&mut self, plaintext: &[u8]) -> (r: Result<KvmPacket, CryptoError>)
        ensures
            (final(self)@, packet_result(r)) == frame_step(old(self)@, plaintext@),
    {
        let plen = plaintext.len();
        if plen < FRAME_HEADER_SIZE {
            return Err(CryptoError::TooShort(plen));
        }
        let session_id = read_u64_le(plaintext, 0);
        let seq = read_u64_le(plaintext, 8);
        let body = slice_tail(plaintext, FRAME_HEADER_SIZE);
        let packet = match deserialize_packet(body) {
            Ok(p) => p,
            Err(e) => {
                return Err(CryptoError::Serialization(e));
            },
        };
        self.accept(session_id, seq, packet)
    }
}

/// The bytes of `s` from `start` on.
fn slice_tail(s: &[u8], start: usize) -> (r: &[u8])
    requires
        start <= s@.len(),
    ensures
        r@ == s@.subrange(start as int, s@.len() as int),
{
    let (_, tail) = s.split_at(start);
    tail
}

/// `d` is packet `p`, number `seq` of session `session_id`, sealed under
/// `key` with `nonce` by a cipher that appended its tag.
pub open spec fn sealed_by(key: Seq<u8>, nonce: Seq<u8>, session_id: u64, seq: u64, p: PacketModel, d: Seq<u8>) -> bool {
    &&& nonce.len() == NONCE_SIZE
    &&& packet_within_limits(p)
    &&& sealable(p)
    &&& seal_well_formed(key, nonce, frame_plaintext(session_id, seq, p))
    &&& d == sealed_datagram(key, nonce, session_id, seq, p)
}

/// The cipher's output for `pt` is the plaintext with a tag appended, as
/// `aead_encrypt` promises of what it returns.
pub open spec fn seal_well_formed(key: Seq<u8>, nonce: Seq<u8>, pt: Seq<u8>) -> bool {
    aead_seal(key, nonce, pt).len() == pt.len() + TAG_SIZE
}

/// A sealed datagram starts with the magic and the nonce, then the
/// ciphertext, and is long enough to hold a frame.
proof fn lemma_sealed_shape(key: Seq<u8>, nonce: Seq<u8>, session_id: u64, seq: u64, p: PacketModel)
    requires
        nonce.len() == NONCE_SIZE,
        seal_well_formed(key, nonce, frame_plaintext(session_id, seq, p)),
    ensures
        ({
            let d = sealed_datagram(key, nonce, session_id, seq, p);
            &&& d.len() >= MIN_DATAGRAM_SIZE
            &&& d.subrange(0, 4) == magic_bytes()
            &&& d.subrange(4, 28) == nonce
            &&& d.subrange(28, d.len() as int) == aead_seal(key, nonce, frame_plaintext(session_id, seq, p))
        }),
{
    let d = sealed_datagram(key, nonce, session_id, seq, p);
    let pt = frame_plaintext(session_id, seq, p);
    assert(encode_packet(p).len() >= 4);
    assert(d.subrange(0, 4) =~= magic_bytes());
    assert(d.subrange(4, 28) =~= nonce);
    assert(d.subrange(28, d.len() as int) =~= aead_seal(key, nonce, pt));
}

/// A frame reads back as the session id, the sequence number and the packet.
proof fn lemma_open_frame(st: ReceiverModel, session_id: u64, seq: u64, p: PacketModel)
    requires
        packet_within_limits(p),
    ensures
        ({
            let pt = frame_plaintext(session_id, seq, p);
            &&& pt.len() >= FRAME_HEADER_SIZE
            &&& u64_at(pt, 0) == session_id
            &&& u64_at(pt, 8) == seq
            &&& decode_packet(pt.subrange(16, pt.len() as int)) == Ok::<PacketModel, WireError>(p)
        }),
{
    let pt = frame_plaintext(session_id, seq, p);
    lemma_u64_le_read(session_id);
    lemma_u64_le_read(seq);
    assert(pt.subrange(0, 8) =~= u64_le(session_id));
    assert(pt.subrange(8, 16) =~= u64_le(seq));
    assert(u64_at(pt, 0) == u64_at(pt.subrange(0, 8), 0));
    assert(u64_at(pt, 8) == u64_at(pt.subrange(8, 16), 0));
    lemma_decode_encode(p, Seq::empty());
    assert(pt.subrange(16, pt.len() as int) =~= encode_packet(p) + Seq::<u8>::empty());
}

/// A handshake of another protocol version, which the receiver hands back
/// without recording anything.
pub open spec fn is_foreign_handshake(p: PacketModel) -> bool {
    p matches PacketModel::Handshake { version } && version != PROTOCOL_VERSION
}

/// The receiver after a run of datagrams, one after another.
pub open spec fn open_run(st: ReceiverModel, ds: Seq<Seq<u8>>) -> ReceiverModel
    decreases ds.len(),
{
    if ds.len() == 0 {
        st
    } else {
        open_step(open_run(st, ds.drop_last()), ds.last()).0
    }
}

/// The receiver will refuse frame `seq` of session `session_id`: a newer
/// session is current, or the window of that session refuses `seq`.
pub open spec fn refuses_frame(st: ReceiverModel, session_id: u64, seq: u64) -> bool {
    st.session matches Some(cur) && (cur > session_id || (cur == session_id && crate::replay::rejects(st.window, seq)))
}

/// No datagram changes the key.
pub proof fn lemma_open_keeps_key(st: ReceiverModel, d: Seq<u8>)
    ensures
        open_step(st, d).0.key == st.key,
{
}

proof fn lemma_open_run_keeps_key(st: ReceiverModel, ds: Seq<Seq<u8>>)
    ensures
        open_run(st, ds).key == st.key,
    decreases ds.len(),
{
    if ds.len() > 0 {
        lemma_open_run_keeps_key(st, ds.drop_last());
    }
}

/// Sessions only move forward: once a session is current, the current one
/// is never older, whatever datagram arrives.
pub proof fn lemma_session_never_goes_back(st: ReceiverModel, d: Seq<u8>)
    ensures
        st.session matches Some(a) ==> (open_step(st, d).0.session matches Some(b) && b >= a),
{
}

proof fn lemma_accepted_frame_refused(st: ReceiverModel, session_id: u64, seq: u64, p: PacketModel)
    requires
        !is_foreign_handshake(p),
        accept_step(st, session_id, seq, p).1 is Ok,
    ensures
        refuses_frame(accept_step(st, session_id, seq, p).0, session_id, seq),
{
    let st1 = if st.session == Some(session_id) {
        st
    } else {
        ReceiverModel { key: st.key, session: Some(session_id), window: empty_window() }
    };
    crate::replay::lemma_accepted_then_refused(st1.window, seq);
}

proof fn lemma_refusal_survives_step(st: ReceiverModel, session_id: u64, seq: u64, s2: u64, q2: u64, p2: PacketModel)
    requires
        refuses_frame(st, session_id, seq),
    ensures
        refuses_frame(accept_step(st, s2, q2, p2).0, session_id, seq),
{
    if st.session == Some(session_id) && crate::replay::rejects(st.window, seq) {
        crate::replay::lemma_refusal_persists(st.window, seq, q2);
    }
}

proof fn lemma_refused_frame_is_refused(st: ReceiverModel, session_id: u64, seq: u64, p: PacketModel)
    requires
        refuses_frame(st, session_id, seq),
        !is_foreign_handshake(p),
    ensures
        accept_step(st, session_id, seq, p).1 is Err,
{
    crate::replay::lemma_step_refuses_exactly(st.window, seq);
}

proof fn lemma_refusal_survives_run(st: ReceiverModel, session_id: u64, seq: u64, ds: Seq<Seq<u8>>)
    requires
        refuses_frame(st, session_id, seq),
    ensures
        refuses_frame(open_run(st, ds), session_id, seq),
    decreases ds.len(),
{
    if ds.len() > 0 {
        lemma_refusal_survives_run(st, session_id, seq, ds.drop_last());
        let prev = open_run(st, ds.drop_last());
        let d = ds.last();
        if d.len() >= MIN_DATAGRAM_SIZE && d.subrange(0, 4) == magic_bytes() {
            if let Some(pt) = aead_open(prev.key, d.subrange(4, 28), d.subrange(28, d.len() as int)) {
                if pt.len() >= FRAME_HEADER_SIZE {
                    if let Ok(p) = decode_packet(pt.subrange(16, pt.len() as int)) {
                        lemma_refusal_survives_step(prev, session_id, seq, u64_at(pt, 0), u64_at(pt, 8), p);
                    }
                }
            }
        }
    }
}

/// Replay protection end to end: a datagram that the receiver accepted
/// (other than a handshake of another protocol version) is refused when it
/// arrives again, after any run of other datagrams.
pub proof fn lemma_datagram_never_accepted_twice(st: ReceiverModel, d: Seq<u8>, later: Seq<Seq<u8>>)
    requires
        open_step(st, d).1 matches Ok(p) && !is_foreign_handshake(p),
    ensures
        open_step(open_run(open_step(st, d).0, later), d).1 is Err,
{
    let st1 = open_step(st, d).0;
    let pt = aead_open(st.key, d.subrange(4, 28), d.subrange(28, d.len() as int))->0;
    let session_id = u64_at(pt, 0);
    let seq = u64_at(pt, 8);
    let p = decode_packet(pt.subrange(16, pt.len() as int))->Ok_0;
    lemma_accepted_frame_refused(st, session_id, seq, p);
    lemma_refusal_survives_run(st1, session_id, seq, later);
    lemma_open_run_keeps_key(st1, later);
    lemma_refused_frame_is_refused(open_run(st1, later), session_id, seq, p);
}

/// A handshake of this protocol from a session newer than the current one
/// (or with no session yet) is accepted and makes that session current,
/// whatever its sequence number.
pub proof fn lemma_newer_handshake_accepted(st: ReceiverModel, session_id: u64, seq: u64)
    requires
        st.session matches Some(cur) ==> cur < session_id,
    ensures
        ({
            let (after, r) = accept_step(st, session_id, seq, PacketModel::Handshake { version: PROTOCOL_VERSION });
            &&& r == Ok::<PacketModel, CryptoError>(PacketModel::Handshake { version: PROTOCOL_VERSION })
            &&& after.session == Some(session_id)
            &&& after.key == st.key
        }),
{
}

/// Input from a session that is not current is refused as needing a
/// handshake, and changes nothing.
pub proof fn lemma_input_needs_handshake(st: ReceiverModel, session_id: u64, seq: u64, p: PacketModel)
    requires
        !(p is Handshake),
        st.session != Some(session_id),
    ensures
        accept_step(st, session_id, seq, p) == (st, Err::<PacketModel, CryptoError>(CryptoError::HandshakeRequired)),
{
}

/// A handshake for a session older than the current one is refused and
/// changes nothing.
pub proof fn lemma_older_session_refused(st: ReceiverModel, session_id: u64, seq: u64)
    requires
        st.session matches Some(cur) && session_id < cur,
    ensures
        accept_step(st, session_id, seq, PacketModel::Handshake { version: PROTOCOL_VERSION }) == (
            st,
            Err::<PacketModel, CryptoError>(CryptoError::InvalidSession),
        ),
{
}

/// What the sender seals is, for a receiver with the same key, packet `p`
/// numbered `next_seq` of the sender's session: `decrypt_packet` then gives
/// `accept_step` of exactly that frame.
pub proof fn lemma_sealed_output_opens(s: SenderModel, p: PacketModel, nonce: Seq<u8>, d: Seq<u8>)
    requires
        nonce.len() == NONCE_SIZE,
        packet_within_limits(p),
        seal_step(s, p, nonce).1 == Ok::<Seq<u8>, CryptoError>(d),
        seal_well_formed(s.key, nonce, frame_plaintext(s.session_id, s.next_seq, p)),
    ensures
        sealed_by(s.key, nonce, s.session_id, s.next_seq, p, d),
{
}

/// The receiver after the frames of session `session_id` numbered `first`,
/// `first + 1`, ... carrying `ps`, in order (as a sender seals them).
pub open spec fn accept_run(st: ReceiverModel, session_id: u64, first: u64, ps: Seq<PacketModel>) -> ReceiverModel
    decreases ps.len(),
{
    if ps.len() == 0 {
        st
    } else {
        accept_step(
            accept_run(st, session_id, first, ps.drop_last()),
            session_id,
            (first + ps.len() - 1) as u64,
            ps.last(),
        ).0
    }
}

/// After `k` frames of a session that opened with a handshake of this
/// protocol: that session is current and every number accepted is below
/// the next one.
pub open spec fn session_run_state(st: ReceiverModel, key: Seq<u8>, session_id: u64, next: int) -> bool {
    &&& st.key == key
    &&& st.session == Some(session_id)
    &&& st.window.initialized
    &&& st.window.last < next
}

proof fn lemma_accept_run_state(st: ReceiverModel, session_id: u64, first: u64, ps: Seq<PacketModel>)
    requires
        ps.len() > 0,
        ps[0] == (PacketModel::Handshake { version: PROTOCOL_VERSION }),
        st.session matches Some(cur) ==> cur < session_id,
        first + ps.len() <= u64::MAX + 1,
    ensures
        session_run_state(accept_run(st, session_id, first, ps), st.key, session_id, first + ps.len()),
        forall|k: int|
            0 <= k < ps.len() ==> #[trigger] accept_step(
                accept_run(st, session_id, first, ps.take(k)),
                session_id,
                (first + k) as u64,
                ps[k],
            ) == (accept_run(st, session_id, first, ps.take(k + 1)), Ok::<PacketModel, CryptoError>(ps[k])),
    decreases ps.len(),
{
    let n = ps.len() as int;
    if n == 1 {
        assert(ps.take(0) =~= Seq::<PacketModel>::empty());
        assert(ps.take(1) =~= ps);
        assert(ps.drop_last() =~= Seq::<PacketModel>::empty());
    } else {
        let prev = ps.drop_last();
        lemma_accept_run_state(st, session_id, first, prev);
        assert forall|k: int| 0 <= k < n - 1 implies #[trigger] ps.take(k) == prev.take(k) && ps.take(k + 1) == prev.take(k + 1) by {
            assert(ps.take(k) =~= prev.take(k));
            assert(ps.take(k + 1) =~= prev.take(k + 1));
        }
        assert(ps.take(n - 1) =~= prev);
        assert(ps.take(n) =~= ps);
        assert forall|k: int|
            0 <= k < n implies #[trigger] accept_step(
                accept_run(st, session_id, first, ps.take(k)),
                session_id,
                (first + k) as u64,
                ps[k],
            ) == (accept_run(st, session_id, first, ps.take(k + 1)), Ok::<PacketModel, CryptoError>(ps[k])) by {
            if k < n - 1 {
                assert(ps.take(k) == prev.take(k));
                assert(ps[k] == prev[k]);
            }
        }
    }
}

/// What a receiver makes of one sender's session: when the session opens
/// with a handshake of this protocol, is newer than the receiver's current
/// one (or there is none), and its numbers do not wrap, every frame in turn
/// is accepted and handed back as sent, and the session is current after it.
pub proof fn lemma_session_delivered_in_order(st: ReceiverModel, session_id: u64, first: u64, ps: Seq<PacketModel>)
    requires
        ps.len() > 0,
        ps[0] == (PacketModel::Handshake { version: PROTOCOL_VERSION }),
        st.session matches Some(cur) ==> cur < session_id,
        first + ps.len() <= u64::MAX + 1,
    ensures
        forall|k: int|
            0 <= k < ps.len() ==> (#[trigger] accept_step(
                accept_run(st, session_id, first, ps.take(k)),
                session_id,
                (first + k) as u64,
                ps[k],
            )).1 == Ok::<PacketModel, CryptoError>(ps[k]),
        accept_run(st, session_id, first, ps).session == Some(session_id),
        accept_run(st, session_id, first, ps).key == st.key,
{
    lemma_accept_run_state(st, session_id, first, ps);
}

/// A frame of the current session (a handshake of this protocol or
/// input) is answered by the replay window alone: handed back when the
/// window accepts its number, refused as a replay with the window's reason
/// otherwise; the session stays current and only the window moves.
pub proof fn lemma_current_session_frames(st: ReceiverModel, seq: u64, p: PacketModel)
    requires
        st.session is Some,
        !is_foreign_handshake(p),
    ensures
        ({
            let (after, r) = accept_step(st, st.session->0, seq, p);
            &&& after.key == st.key
            &&& after.session == st.session
            &&& after.window == window_step(st.window, seq).0
            &&& r == match window_step(st.window, seq).1 {
                Ok(()) => Ok::<PacketModel, CryptoError>(p),
                Err(e) => Err(CryptoError::Replay(e)),
            }
        }),
{
}

} // verus!
