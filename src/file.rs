//! The encryption of the stored catalog and the handling of its key.
//!
//! A store file holds `base64(nonce || AES-256-GCM(plaintext))`, with a fresh
//! 12-byte nonce for every write; a key file holds the 32-byte key as 64
//! lower-case hex digits.

use vstd::prelude::*;
use vstd::slice::slice_subrange;
use vstd::string::StringSliceAdditionalSpecFns;
use vstd::utf8::{decode_utf8, encode_utf8, valid_utf8, decode_utf8_encode_utf8, encode_utf8_decode_utf8, encode_utf8_valid_utf8};
use crate::error::{NosqliteError, NosqliteErrorHandler, logged};
use aes_gcm::aead::{Aead, AeadCore, KeyInit, OsRng};
use aes_gcm::{Aes256Gcm, Key, Nonce};
use base64::Engine;
use rand::RngCore;

verus! {

#[verifier::external_type_specification]
#[verifier::external_body]
pub struct ExAeadError(aes_gcm::aead::Error);

#[verifier::external_type_specification]
#[verifier::external_body]
pub struct ExBase64DecodeError(base64::DecodeError);

#[verifier::external_type_specification]
#[verifier::external_body]
pub struct ExFromHexError(hex::FromHexError);

#[verifier::external_type_specification]
#[verifier::external_body]
pub struct ExFromUtf8Error(std::string::FromUtf8Error);

/// The text that the standard padded base64 encoding gives for the bytes.
pub uninterp spec fn base64_of(b: Seq<u8>) -> Seq<char>;

/// The ciphertext followed by the 16-byte tag that AES-256-GCM gives for the
/// plaintext under the key and nonce, with no associated data.
pub uninterp spec fn aes_gcm_seal(key: Seq<u8>, nonce: Seq<u8>, plaintext: Seq<u8>) -> Seq<u8>;

/// A text with its leading and trailing white space removed, as `str::trim`
/// gives it.
pub uninterp spec fn trim_of(s: Seq<char>) -> Seq<char>;

/// The longest plaintext AES-GCM takes, in bytes: 2^36.
pub open spec fn plaintext_limit() -> nat {
    68719476736
}

/// Relies on base64's `STANDARD` engine `encode`.
#[verifier::external_body]
fn base64_encode(b: &[u8]) -> (r: String)
    ensures
        r@ == base64_of(b@),
{
    base64::engine::general_purpose::STANDARD.encode(b)
}

/// Relies on base64's `STANDARD` engine `decode`, which requires canonical
/// padding and no trailing bits: it accepts exactly the texts that `encode`
/// gives, and returns the bytes they encode.
#[verifier::external_body]
fn base64_decode(s: &str) -> (r: Result<Vec<u8>, base64::DecodeError>)
    ensures
        r matches Ok(b) ==> s@ == base64_of(b@),
        forall|b: Seq<u8>| s@ == base64_of(b) ==> r is Ok && r->Ok_0@ == b,
{
    base64::engine::general_purpose::STANDARD.decode(s)
}

/// Relies on `aes_gcm::Aes256Gcm::encrypt`, which fails only on a plaintext
/// longer than 2^36 bytes.
#[verifier::external_body]
fn aes_seal(key: &[u8; 32], nonce: &[u8; 12], plaintext: &[u8]) -> (r: Result<Vec<u8>, aes_gcm::aead::Error>)
    ensures
        r is Ok <==> plaintext@.len() <= plaintext_limit(),
        r matches Ok(c) ==> c@ == aes_gcm_seal(key@, nonce@, plaintext@),
{
    let cipher = Aes256Gcm::new(Key::<Aes256Gcm>::from_slice(key));
    cipher.encrypt(Nonce::from_slice(nonce), plaintext)
}

/// Relies on `aes_gcm::Aes256Gcm::decrypt`: it returns a plaintext only when
/// the tag checks, that is when the input is what `encrypt` gives for that
/// plaintext under the same key and nonce; and it returns that plaintext
/// for any such input.
#[verifier::external_body]
fn aes_open(key: &[u8; 32], nonce: &[u8; 12], ciphertext: &[u8]) -> (r: Result<Vec<u8>, aes_gcm::aead::Error>)
    ensures
        r matches Ok(p) ==> ciphertext@ == aes_gcm_seal(key@, nonce@, p@),
        forall|p: Seq<u8>| p.len() <= plaintext_limit() && ciphertext@ == aes_gcm_seal(key@, nonce@, p)
            ==> r is Ok && r->Ok_0@ == p,
{
    let cipher = Aes256Gcm::new(Key::<Aes256Gcm>::from_slice(key));
    cipher.decrypt(Nonce::from_slice(nonce), ciphertext)
}

/// Relies on `aes_gcm::AeadCore::generate_nonce` with the operating system's
/// random source: 12 random bytes, so nothing is promised of them.
#[verifier::external_body]
fn fresh_nonce() -> (r: [u8; 12]) {
    Aes256Gcm::generate_nonce(&mut OsRng).into()
}

/// Relies on `rand::rng` and `RngCore::fill_bytes`: 32 random bytes, so
/// nothing is promised of them.
#[verifier::external_body]
fn random_key() -> (r: [u8; 32]) {
    let mut raw = [0u8; 32];
    rand::rng().fill_bytes(&mut raw);
    raw
}

/// Relies on `String::from_utf8`: it succeeds exactly on valid UTF-8, with
/// the characters that the bytes encode.
#[verifier::external_body]
fn utf8_string(b: Vec<u8>) -> (r: Result<String, std::string::FromUtf8Error>)
    ensures
        r is Ok <==> valid_utf8(b@),
        r matches Ok(s) ==> s@ == decode_utf8(b@),
{
    String::from_utf8(b)
}

/// Relies on `str::trim`.
#[verifier::external_body]
fn trim(s: &str) -> (r: &str)
    ensures
        r@ == trim_of(s@),
{
    s.trim()
}

/// The value of a hex digit (either case).
pub open spec fn hex_value(c: u8) -> Option<u8> {
    if 48 <= c <= 57 {
        Some((c - 48) as u8)
    } else if 97 <= c <= 102 {
        Some((c - 87) as u8)
    } else if 65 <= c <= 70 {
        Some((c - 55) as u8)
    } else {
        None
    }
}

/// The bytes that a hex text stands for: two digits a byte, high digit
/// first; none if the length is odd or a character is not a hex digit.
pub open spec fn hex_decoded(s: Seq<u8>) -> Option<Seq<u8>> {
    if s.len() % 2 == 0 && forall|i: int| 0 <= i < s.len() ==> (#[trigger] hex_value(s[i])) is Some {
        Some(Seq::new((s.len() / 2) as nat, |i: int| (hex_value(s[2 * i])->Some_0 * 16 + hex_value(s[2 * i + 1])->Some_0) as u8))
    } else {
        None
    }
}

/// The lower-case hex digit for a value below 16.
pub open spec fn hex_digit(n: int) -> char {
    if n < 10 {
        ((48 + n) as u8) as char
    } else {
        ((87 + n) as u8) as char
    }
}

/// The lower-case hex text of bytes: two digits a byte, high digit first.
pub open spec fn hex_text(b: Seq<u8>) -> Seq<char> {
    Seq::new(2 * b.len(), |i: int| if i % 2 == 0 {
        hex_digit(b[i / 2] as int / 16)
    } else {
        hex_digit(b[i / 2] as int % 16)
    })
}

/// Relies on `hex::decode`, which reads the bytes of the text.
#[verifier::external_body]
fn hex_decode(s: &str) -> (r: Result<Vec<u8>, hex::FromHexError>)
    ensures
        match r {
            Ok(b) => hex_decoded(s.spec_bytes()) == Some(b@),
            Err(_) => hex_decoded(s.spec_bytes()) is None,
        },
{
    hex::decode(s)
}

/// Relies on `hex::encode`, which writes lower-case digits.
#[verifier::external_body]
fn hex_encode(b: &[u8]) -> (r: String)
    ensures
        r@ == hex_text(b@),
{
    hex::encode(b)
}

/// The text stored for the plaintext `text` under `key`, with `nonce`.
pub open spec fn sealed_text(text: Seq<char>, key: Seq<u8>, nonce: Seq<u8>) -> Seq<char> {
    base64_of(nonce + aes_gcm_seal(key, nonce, encode_utf8(text)))
}

/// Whether `blob` is what encrypting `text` under `key` gives, for some
/// nonce, and `text` is short enough to be encrypted.
pub open spec fn seals(blob: Seq<char>, key: Seq<u8>, text: Seq<char>) -> bool {
    exists|n: Seq<u8>| n.len() == 12 && encode_utf8(text).len() <= plaintext_limit()
        && blob == #[trigger] sealed_text(text, key, n)
}

/// The encryption of store files and the handling of their key.
pub struct File;

impl File {
    /// Encrypts `data` under `key` with the given nonce.
    pub fn encrypt_with_nonce(
        data: &str,
        key: &[u8; 32],
        nonce: &[u8; 12],
        handler: &mut NosqliteErrorHandler,
    ) -> (r: Result<String, NosqliteError>)
        ensures
            logged(*old(handler), *final(handler), r),
            r is Ok <==> encode_utf8(data@).len() <= plaintext_limit(),
            r matches Ok(s) ==> s@ == sealed_text(data@, key@, nonce@),
            r is Err ==> (r matches Err(NosqliteError::EncryptionError(_))),
    {
        let bytes = data.as_bytes();
        let sealed = match aes_seal(key, nonce, bytes) {
            Ok(c) => c,
            Err(_) => {
                return handler.raise(NosqliteError::EncryptionError("the plaintext is too long".to_string()));
            },
        };
        let mut framed: Vec<u8> = Vec::new();
        let mut i: usize = 0;
        while i < 12
            invariant
                i <= 12,
                framed@ == nonce@.subrange(0, i as int),
            decreases 12 - i,
        {
            framed.push(nonce[i]);
            i = i + 1;
        }
        let mut j: usize = 0;
        while j < sealed.len()
            invariant
                j <= sealed@.len(),
                framed@ == nonce@ + sealed@.subrange(0, j as int),
            decreases sealed@.len() - j,
        {
            framed.push(sealed[j]);
            j = j + 1;
        }
        proof {
            assert(sealed@.subrange(0, sealed@.len() as int) =~= sealed@);
        }
        Ok(base64_encode(framed.as_slice()))
    }

    /// Encrypts `data` under `key` with a fresh random nonce.
    pub fn encrypt(data: &str, key: &[u8; 32], handler: &mut NosqliteErrorHandler) -> (r: Result<String, NosqliteError>)
        ensures
            logged(*old(handler), *final(handler), r),
            r is Ok <==> encode_utf8(data@).len() <= plaintext_limit(),
            r matches Ok(s) ==> seals(s@, key@, data@),
            r is Err ==> (r matches Err(NosqliteError::EncryptionError(_))),
    {
        let nonce = fresh_nonce();
        let r = File::encrypt_with_nonce(data, key, &nonce, handler);
        proof {
            if r is Ok {
                assert(nonce@.len() == 12);
                assert(r->Ok_0@ == sealed_text(data@, key@, nonce@));
            }
        }
        r
    }

    /// Decrypts a stored text under `key`. It returns a text exactly when
    /// the stored text is the encryption of that text under `key`.
    pub fn decrypt(blob: &str, key: &[u8; 32], handler: &mut NosqliteErrorHandler) -> (r: Result<String, NosqliteError>)
        ensures
            logged(*old(handler), *final(handler), r),
            r matches Ok(s) ==> exists|n: Seq<u8>| n.len() == 12 && blob@ == sealed_text(s@, key@, n),
            forall|t: Seq<char>| seals(blob@, key@, t) ==> r is Ok && r->Ok_0@ == t,
            (r matches Err(NosqliteError::Base64DecodeError(_))) <==> forall|b: Seq<u8>| blob@ != base64_of(b),
            r is Err ==> (r matches Err(NosqliteError::Base64DecodeError(_)))
                || (r matches Err(NosqliteError::EncryptionError(_)))
                || (r matches Err(NosqliteError::DeserializationError(_))),
    {
        let decoded = match base64_decode(blob) {
            Ok(b) => b,
            Err(_) => {
                return handler.raise(NosqliteError::Base64DecodeError("the stored text is not base64".to_string()));
            },
        };
        if decoded.len() < 12 {
            proof {
                assert forall|t: Seq<char>| !seals(blob@, key@, t) by {
                    if seals(blob@, key@, t) {
                        let n = choose|n: Seq<u8>| n.len() == 12 && encode_utf8(t).len() <= plaintext_limit()
                            && blob@ == #[trigger] sealed_text(t, key@, n);
                        assert(decoded@ == n + aes_gcm_seal(key@, n, encode_utf8(t)));
                    }
                }
            }
            return handler.raise(NosqliteError::EncryptionError("the stored text is too short".to_string()));
        }
        let mut nonce = [0u8; 12];
        let mut i: usize = 0;
        while i < 12
            invariant
                i <= 12,
                decoded@.len() >= 12,
                forall|j: int| 0 <= j < i ==> nonce@[j] == decoded@[j],
            decreases 12 - i,
        {
            nonce[i] = decoded[i];
            i = i + 1;
        }
        let ciphertext = slice_subrange(decoded.as_slice(), 12, decoded.len());
        proof {
            assert(nonce@ =~= decoded@.subrange(0, 12));
            assert(decoded@ =~= nonce@ + ciphertext@);
        }
        let plain = match aes_open(key, &nonce, ciphertext) {
            Ok(p) => p,
            Err(_) => {
                proof {
                    assert forall|t: Seq<char>| !seals(blob@, key@, t) by {
                        if seals(blob@, key@, t) {
                            let n = choose|n: Seq<u8>| n.len() == 12 && encode_utf8(t).len() <= plaintext_limit()
                                && blob@ == #[trigger] sealed_text(t, key@, n);
                            let c = aes_gcm_seal(key@, n, encode_utf8(t));
                            assert(decoded@ == n + c);
                            assert(n =~= decoded@.subrange(0, 12));
                            assert(c =~= decoded@.subrange(12, decoded@.len() as int));
                        }
                    }
                }
                return handler.raise(NosqliteError::EncryptionError("authentication failed".to_string()));
            },
        };
        let ghost p = plain@;
        let text = match utf8_string(plain) {
            Ok(s) => s,
            Err(_) => {
                proof {
                    assert forall|t: Seq<char>| !seals(blob@, key@, t) by {
                        if seals(blob@, key@, t) {
                            let n = choose|n: Seq<u8>| n.len() == 12 && encode_utf8(t).len() <= plaintext_limit()
                                && blob@ == #[trigger] sealed_text(t, key@, n);
                            let c = aes_gcm_seal(key@, n, encode_utf8(t));
                            assert(decoded@ == n + c);
                            assert(n =~= decoded@.subrange(0, 12));
                            assert(c =~= decoded@.subrange(12, decoded@.len() as int));
                            encode_utf8_valid_utf8(t);
                        }
                    }
                }
                return handler.raise(NosqliteError::DeserializationError("the decrypted bytes are not UTF-8".to_string()));
            },
        };
        proof {
            decode_utf8_encode_utf8(p);
            assert(blob@ == sealed_text(text@, key@, nonce@));
            assert forall|t: Seq<char>| seals(blob@, key@, t) implies text@ == t by {
                let n = choose|n: Seq<u8>| n.len() == 12 && encode_utf8(t).len() <= plaintext_limit()
                    && blob@ == #[trigger] sealed_text(t, key@, n);
                let c = aes_gcm_seal(key@, n, encode_utf8(t));
                assert(decoded@ == n + c);
                assert(n =~= decoded@.subrange(0, 12));
                assert(c =~= decoded@.subrange(12, decoded@.len() as int));
                encode_utf8_decode_utf8(t);
            }
        }
        Ok(text)
    }

    /// The key that a hex text stands for: exactly 32 bytes.
    pub fn key_from_hex(hex: &str, handler: &mut NosqliteErrorHandler) -> (r: Result<[u8; 32], NosqliteError>)
        ensures
            logged(*old(handler), *final(handler), r),
            r is Ok <==> hex_decoded(hex.spec_bytes()) is Some && hex_decoded(hex.spec_bytes())->Some_0.len() == 32,
            r matches Ok(k) ==> hex_decoded(hex.spec_bytes()) == Some(k@),
            r is Err ==> (r matches Err(NosqliteError::HexDecodeError(_))),
    {
        let bytes = match hex_decode(hex) {
            Ok(b) => b,
            Err(_) => {
                return handler.raise(NosqliteError::HexDecodeError("the key is not hex text".to_string()));
            },
        };
        if bytes.len() != 32 {
            return handler.raise(NosqliteError::HexDecodeError("the key is not 32 bytes long".to_string()));
        }
        let mut key = [0u8; 32];
        let mut i: usize = 0;
        while i < 32
            invariant
                i <= 32,
                bytes@.len() == 32,
                forall|j: int| 0 <= j < i ==> key@[j] == bytes@[j],
            decreases 32 - i,
        {
            key[i] = bytes[i];
            i = i + 1;
        }
        proof {
            assert(key@ =~= bytes@);
        }
        Ok(key)
    }

    /// The key held in the text of a key file: its hex digits, with any
    /// white space around them ignored.
    pub fn key_from_file_text(content: &str, handler: &mut NosqliteErrorHandler) -> (r: Result<[u8; 32], NosqliteError>)
        ensures
            logged(*old(handler), *final(handler), r),
            r is Ok <==> hex_decoded(encode_utf8(trim_of(content@))) is Some
                && hex_decoded(encode_utf8(trim_of(content@)))->Some_0.len() == 32,
            r matches Ok(k) ==> hex_decoded(encode_utf8(trim_of(content@))) == Some(k@),
            r is Err ==> (r matches Err(NosqliteError::HexDecodeError(_))),
    {
        File::key_from_hex(trim(content), handler)
    }

    /// The text of a key file for `key`: 64 lower-case hex digits.
    pub fn key_to_hex(key: &[u8; 32]) -> (r: String)
        ensures
            r@ == hex_text(key@),
            r@.len() == 64,
    {
        hex_encode(key)
    }

    /// A new random key, with the text of its key file.
    pub fn new_key() -> (r: ([u8; 32], String))
        ensures
            r.1@ == hex_text(r.0@),
    {
        let key = random_key();
        let text = File::key_to_hex(&key);
        (key, text)
    }
}

} // verus!
