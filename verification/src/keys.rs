//! The pre-shared key: generating it, writing it as hex, and reading it
//! back from hex or deriving it from a passphrase.
use crate::crypto::CryptoError;
use crate::primitives::{random_bytes, sha256, sha256_digest};
use crate::text::{is_white_space, lemma_trim_idempotent, lemma_trim_untouched, trim, trim_str};
use vstd::prelude::*;
use vstd::utf8::{encode_utf8, is_ascii_chars, is_ascii_chars_encode_utf8};

verus! {

/// Bytes in a key.
pub const KEY_SIZE: usize = 32;

/// Characters in the hex form of a key.
pub const KEY_HEX_LEN: usize = 64;

pub open spec fn is_ascii_hex_char(c: char) -> bool {
    ('0' <= c <= '9') || ('a' <= c <= 'f') || ('A' <= c <= 'F')
}

pub open spec fn hex_value(c: u8) -> u8 {
    if 48 <= c <= 57 {
        (c - 48) as u8
    } else if 97 <= c <= 102 {
        (c - 87) as u8
    } else {
        (c - 55) as u8
    }
}

/// The lowercase hex digit for `n < 16`.
pub open spec fn hex_digit(n: u8) -> char {
    if n < 10 {
        (48 + n) as char
    } else {
        (87 + n) as char
    }
}

/// Each byte as two lowercase hex digits, high digit first.
pub open spec fn hex_text(key: Seq<u8>) -> Seq<char> {
    Seq::new(
        2 * key.len(),
        |i: int|
            if i % 2 == 0 {
                hex_digit(key[i / 2] / 16)
            } else {
                hex_digit(key[i / 2] % 16)
            },
    )
}

/// The bytes written by 64 hex digits, two digits per byte.
pub open spec fn hex_decode(b: Seq<u8>) -> Seq<u8> {
    Seq::new(32, |i: int| (hex_value(b[2 * i]) * 16 + hex_value(b[2 * i + 1])) as u8)
}

/// The text is exactly 64 hex digits.
pub open spec fn is_hex_key_text(t: Seq<char>) -> bool {
    t.len() == KEY_HEX_LEN && forall|i: int| 0 <= i < t.len() ==> is_ascii_hex_char(#[trigger] t[i])
}

/// The key that `text` stands for: after trimming, 64 hex digits are the
/// key itself; anything else is a passphrase, hashed with SHA-256.
pub open spec fn key_from_text(text: Seq<char>) -> Seq<u8> {
    let t = trim(text);
    if is_hex_key_text(t) {
        hex_decode(encode_utf8(t))
    } else {
        sha256(encode_utf8(t))
    }
}

/// Why no key could be had.
#[derive(Debug, Clone, Copy, PartialEq, Eq, Structural)]
pub enum KeyError {
    /// The key given directly is blank.
    EmptyKey,
    /// The key file holds only whitespace.
    EmptyKeyFile,
    /// The key file could not be read.
    KeyFileUnreadable,
    /// No key was given in any of the three ways.
    Missing,
}

/// Where the key comes from, in order: the key given directly, then the
/// environment (when not blank), then the key file.
pub open spec fn resolve_key_spec(
    key_arg: Option<Seq<char>>,
    env_key: Option<Seq<char>>,
    key_file: Option<Option<Seq<char>>>,
) -> Result<Seq<u8>, KeyError> {
    match key_arg {
        Some(k) => if trim(k).len() == 0 {
            Err(KeyError::EmptyKey)
        } else {
            Ok(key_from_text(k))
        },
        None => {
            if env_key matches Some(e) && trim(e).len() > 0 {
                Ok(key_from_text(env_key->0))
            } else {
                match key_file {
                    Some(Some(t)) => if trim(t).len() == 0 {
                        Err(KeyError::EmptyKeyFile)
                    } else {
                        Ok(key_from_text(t))
                    },
                    Some(None) => Err(KeyError::KeyFileUnreadable),
                    None => Err(KeyError::Missing),
                }
            }
        },
    }
}

pub open spec fn key_result(r: Result<[u8; 32], KeyError>) -> Result<Seq<u8>, KeyError> {
    match r {
        Ok(k) => Ok(k@),
        Err(e) => Err(e),
    }
}

/// A fresh key from the system random source.
pub fn generate_key() -> (r: Result<[u8; 32], CryptoError>)
    ensures
        r is Err ==> r == Err::<[u8; 32], CryptoError>(CryptoError::RandomUnavailable),
{
    let random = match random_bytes(KEY_SIZE) {
        Some(v) => v,
        None => {
            return Err(CryptoError::RandomUnavailable);
        },
    };
    Ok(key_from_bytes(random.as_slice()))
}

/// The key made of exactly these 32 bytes.
pub fn key_from_bytes(bytes: &[u8]) -> (key: [u8; 32])
    requires
        bytes@.len() == KEY_SIZE,
    ensures
        key@ == bytes@,
{
    let mut key = [0u8; 32];
    let mut i: usize = 0;
    while i < KEY_SIZE
        invariant
            i <= KEY_SIZE,
            bytes@.len() == KEY_SIZE,
            forall|j: int| 0 <= j < i ==> key@[j] == bytes@[j],
        decreases KEY_SIZE - i,
    {
        key[i] = bytes[i];
        i = i + 1;
    }
    assert(key@ =~= bytes@);
    key
}

/// The single-character string for hex digit `n`.
fn hex_digit_str(n: u8) -> (r: &'static str)
    requires
        n < 16,
    ensures
        r@ == seq![hex_digit(n)],
{
    let digits = "0123456789abcdef";
    proof {
        reveal_strlit("0123456789abcdef");
    }
    let r = digits.substring_char(n as usize, n as usize + 1);
    assert(r@ =~= seq![hex_digit(n)]);
    r
}

/// The key as 64 lowercase hex digits.
pub fn key_to_hex(key: &[u8; 32]) -> (s: String)
    ensures
        s@ == hex_text(key@),
{
    let mut s = String::new();
    let mut i: usize = 0;
    while i < KEY_SIZE
        invariant
            i <= KEY_SIZE,
            key@.len() == KEY_SIZE,
            s@ == hex_text(key@.subrange(0, i as int)),
        decreases KEY_SIZE - i,
    {
        let b = key[i];
        s.append(hex_digit_str(b / 16));
        s.append(hex_digit_str(b % 16));
        proof {
            let prev = hex_text(key@.subrange(0, i as int));
            let next = hex_text(key@.subrange(0, i as int + 1));
            assert forall|j: int| 0 <= j < next.len() implies next[j] == s@[j] by {
                if j < 2 * i {
                    assert(j / 2 < i);
                    assert(next[j] == prev[j]);
                } else {
                    assert(j / 2 == i);
                }
            }
            assert(next =~= s@);
        }
        i = i + 1;
    }
    assert(key@.subrange(0, 32) =~= key@);
    s
}

fn is_hex_char(c: char) -> (r: bool)
    ensures
        r == is_ascii_hex_char(c),
{
    ('0' <= c && c <= '9') || ('a' <= c && c <= 'f') || ('A' <= c && c <= 'F')
}

fn hex_byte_value(c: u8) -> (r: u8)
    requires
        (48 <= c <= 57) || (97 <= c <= 102) || (65 <= c <= 70),
    ensures
        r == hex_value(c),
        r < 16,
{
    if 48 <= c && c <= 57 {
        c - 48
    } else if 97 <= c && c <= 102 {
        c - 87
    } else {
        c - 55
    }
}

/// Whether `t` is exactly 64 hex digits.
fn is_hex_key(t: &str) -> (r: bool)
    ensures
        r == is_hex_key_text(t@),
{
    let n = t.unicode_len();
    if n != KEY_HEX_LEN {
        return false;
    }
    let mut i: usize = 0;
    while i < n
        invariant
            n == t@.len(),
            i <= n,
            forall|j: int| 0 <= j < i ==> is_ascii_hex_char(#[trigger] t@[j]),
        decreases n - i,
    {
        if !is_hex_char(t.get_char(i)) {
            return false;
        }
        i = i + 1;
    }
    true
}

/// The key that `input` stands for (see `key_from_text`).
pub fn parse_key(input: &str) -> (key: [u8; 32])
    ensures
        key@ == key_from_text(input@),
{
    let trimmed = trim_str(input);
    let bytes = trimmed.as_bytes();
    if is_hex_key(trimmed) {
        proof {
            assert(is_ascii_chars(trimmed@));
            is_ascii_chars_encode_utf8(trimmed@);
        }
        let mut key = [0u8; 32];
        let mut i: usize = 0;
        while i < KEY_SIZE
            invariant
                i <= KEY_SIZE,
                bytes@ == encode_utf8(trimmed@),
                bytes@.len() == KEY_HEX_LEN,
                is_hex_key_text(trimmed@),
                forall|j: int| 0 <= j < KEY_HEX_LEN ==> trimmed@[j] as u8 == #[trigger] bytes@[j],
                forall|j: int| 0 <= j < i ==> key@[j] == hex_decode(bytes@)[j],
            decreases KEY_SIZE - i,
        {
            assert(is_ascii_hex_char(trimmed@[2 * i as int]));
            assert(is_ascii_hex_char(trimmed@[2 * i as int + 1]));
            assert(trimmed@[2 * i as int] as u8 == bytes@[2 * i as int]);
            assert(trimmed@[2 * i as int + 1] as u8 == bytes@[2 * i as int + 1]);
            let hi = hex_byte_value(bytes[2 * i]);
            let lo = hex_byte_value(bytes[2 * i + 1]);
            key[i] = hi * 16 + lo;
            i = i + 1;
        }
        assert(key@ =~= hex_decode(bytes@));
        return key;
    }
    sha256_digest(bytes)
}

/// The key from the first of: the key given directly, the environment
/// value, the key file (`Some(None)` when it could not be read).
pub fn resolve_key(key_arg: Option<&str>, env_key: Option<&str>, key_file: Option<Option<&str>>) -> (r: Result<[u8; 32], KeyError>)
    ensures
        key_result(r) == resolve_key_spec(
            match key_arg {
                Some(k) => Some(k@),
                None => None,
            },
            match env_key {
                Some(e) => Some(e@),
                None => None,
            },
            match key_file {
                Some(Some(t)) => Some(Some(t@)),
                Some(None) => Some(None),
                None => None,
            },
        ),
{
    if let Some(k) = key_arg {
        let trimmed = trim_str(k);
        if trimmed.unicode_len() == 0 {
            return Err(KeyError::EmptyKey);
        }
        proof {
            lemma_trim_idempotent(k@);
        }
        return Ok(parse_key(trimmed));
    }
    if let Some(e) = env_key {
        let trimmed = trim_str(e);
        if trimmed.unicode_len() != 0 {
            proof {
                lemma_trim_idempotent(e@);
            }
            return Ok(parse_key(trimmed));
        }
    }
    match key_file {
        Some(Some(content)) => {
            let trimmed = trim_str(content);
            if trimmed.unicode_len() == 0 {
                return Err(KeyError::EmptyKeyFile);
            }
            proof {
                lemma_trim_idempotent(content@);
            }
            Ok(parse_key(trimmed))
        },
        Some(None) => Err(KeyError::KeyFileUnreadable),
        None => Err(KeyError::Missing),
    }
}

/// Writing a key as hex and reading it back gives the key.
pub proof fn lemma_key_hex_roundtrip(key: Seq<u8>)
    requires
        key.len() == KEY_SIZE,
    ensures
        key_from_text(hex_text(key)) == key,
{
    let t = hex_text(key);
    assert forall|j: int| 0 <= j < t.len() implies is_ascii_hex_char(#[trigger] t[j]) && !is_white_space(t[j]) && '\0' <= t[j] <= '\u{7f}' by {
        let b = key[j / 2];
        assert(b / 16 < 16 && b % 16 < 16);
    }
    lemma_trim_untouched(t);
    assert(is_ascii_chars(t));
    is_ascii_chars_encode_utf8(t);
    let bytes = encode_utf8(t);
    assert forall|i: int| 0 <= i < 32 implies hex_decode(bytes)[i] == key[i] by {
        assert(bytes[2 * i] == t[2 * i] as u8);
        assert(bytes[2 * i + 1] == t[2 * i + 1] as u8);
        assert((2 * i) / 2 == i && (2 * i + 1) / 2 == i);
        assert((2 * i) % 2 == 0 && (2 * i + 1) % 2 == 1);
        let b = key[i];
        assert(hex_value(hex_digit(b / 16) as u8) == b / 16);
        assert(hex_value(hex_digit(b % 16) as u8) == b % 16);
    }
    assert(hex_decode(bytes) =~= key);
}

/// The key comes from the first source that gives one, and the same text
/// gives the same key whichever source it comes from: a non-blank key given
/// directly wins whatever the environment and the file hold; otherwise a
/// non-blank environment value wins whatever the file holds; a blank key
/// given directly is an error even when the others would give a key; and
/// with none of the three there is no key.
pub proof fn lemma_key_source_order(
    text: Seq<char>,
    env_key: Option<Seq<char>>,
    key_file: Option<Option<Seq<char>>>,
)
    ensures
        trim(text).len() > 0 ==> resolve_key_spec(Some(text), env_key, key_file) == Ok::<Seq<u8>, KeyError>(
            key_from_text(text),
        ),
        trim(text).len() > 0 ==> resolve_key_spec(None, Some(text), key_file) == Ok::<Seq<u8>, KeyError>(
            key_from_text(text),
        ),
        trim(text).len() > 0 ==> resolve_key_spec(None, None, Some(Some(text))) == Ok::<Seq<u8>, KeyError>(
            key_from_text(text),
        ),
        trim(text).len() == 0 ==> resolve_key_spec(Some(text), env_key, key_file) == Err::<Seq<u8>, KeyError>(
            KeyError::EmptyKey,
        ),
        trim(text).len() == 0 ==> resolve_key_spec(None, Some(text), key_file) == resolve_key_spec(None, None, key_file),
        resolve_key_spec(None, None, None) == Err::<Seq<u8>, KeyError>(KeyError::Missing),
{
}

} // verus!
