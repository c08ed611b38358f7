//! Authenticated encryption with ChaCha20-Poly1305.
//!
//! The functions that call the `chacha20poly1305` crate are trusted: their
//! contracts restate what its code does, and nothing here proves them.

use chacha20poly1305::aead::{Aead, AeadCore, KeyInit, OsRng};
use vstd::prelude::*;

verus! {

/// Length of a key.
pub const KEY_SIZE: usize = 32;

/// Length of a nonce.
pub const NONCE_SIZE: usize = 12;

/// By how much a ciphertext is longer than its plaintext.
pub const TAG_SIZE: usize = 16;

/// The longest plaintext under one nonce: blocks of 64 bytes, counted by 32
/// bits from one on.
pub const MAX_PLAINTEXT: u64 = 274_877_906_816;

/// A cipher under one key; its view is the key.
#[derive(Clone, Copy)]
pub struct Cipher {
    key: [u8; KEY_SIZE],
}

impl View for Cipher {
    type V = Seq<u8>;

    closed spec fn view(&self) -> Seq<u8> {
        self.key@
    }
}

impl Cipher {
    /// The cipher under `key`.
    pub fn new(key: [u8; KEY_SIZE]) -> (cipher: Cipher)
        ensures
            cipher@ == key@,
    {
        Cipher { key }
    }
}

/// The error of the `aead` crate, which says nothing but that a call failed.
#[verifier::external_type_specification]
#[verifier::external_body]
pub struct ExAeadError(chacha20poly1305::aead::Error);

/// What `ChaCha20Poly1305::encrypt` returns for a key, a nonce and a
/// plaintext: the ciphertext and its tag.
pub uninterp spec fn chacha_encrypt(key: Seq<u8>, nonce: Seq<u8>, plaintext: Seq<u8>) -> Seq<u8>;

/// What `ChaCha20Poly1305::decrypt` returns for a key, a nonce and a
/// ciphertext with its tag: the plaintext, or nothing where the tag is not
/// the ciphertext's own.
pub uninterp spec fn chacha_decrypt(
    key: Seq<u8>,
    nonce: Seq<u8>,
    ciphertext: Seq<u8>,
) -> Option<Seq<u8>>;

/// Calls `ChaCha20Poly1305::encrypt` with no associated data. Trusted: on a
/// plaintext as short as this one it succeeds, the result depends on key,
/// nonce and plaintext alone, is longer than the plaintext by the tag, and
/// decrypts under the same key and nonce to the plaintext.
#[verifier::external_body]
pub(crate) fn aead_encrypt(cipher: &Cipher, nonce: &[u8], plaintext: &[u8]) -> (r: Result<
    Vec<u8>,
    chacha20poly1305::aead::Error,
>)
    requires
        nonce@.len() == NONCE_SIZE,
        plaintext@.len() <= u16::MAX,
    ensures
        r is Ok,
        r->Ok_0@ == chacha_encrypt(cipher@, nonce@, plaintext@),
        r->Ok_0@.len() == plaintext@.len() + TAG_SIZE,
        chacha_decrypt(cipher@, nonce@, r->Ok_0@) == Some(plaintext@),
{
    let aead = chacha20poly1305::ChaCha20Poly1305::new((&cipher.key).into());
    aead.encrypt(chacha20poly1305::Nonce::from_slice(nonce), plaintext)
}

/// Calls `ChaCha20Poly1305::decrypt` with no associated data. Trusted: the
/// result depends on key, nonce and ciphertext alone, and a plaintext comes
/// back only where it is shorter than the ciphertext by the tag and
/// encrypting it again under the same key and nonce gives the ciphertext.
#[verifier::external_body]
pub(crate) fn aead_decrypt(cipher: &Cipher, nonce: &[u8], ciphertext: &[u8]) -> (r: Result<
    Vec<u8>,
    chacha20poly1305::aead::Error,
>)
    requires
        nonce@.len() == NONCE_SIZE,
        ciphertext@.len() <= MAX_PLAINTEXT + TAG_SIZE,
    ensures
        r is Ok <==> chacha_decrypt(cipher@, nonce@, ciphertext@) is Some,
        r is Ok ==> r->Ok_0@ == chacha_decrypt(cipher@, nonce@, ciphertext@)->0,
        r is Ok ==> r->Ok_0@.len() + TAG_SIZE == ciphertext@.len(),
        r is Ok ==> chacha_encrypt(cipher@, nonce@, r->Ok_0@) == ciphertext@,
{
    let aead = chacha20poly1305::ChaCha20Poly1305::new((&cipher.key).into());
    aead.decrypt(chacha20poly1305::Nonce::from_slice(nonce), ciphertext)
}

/// Calls `ChaCha20Poly1305::generate_nonce` on the operating system's random
/// numbers. Nothing is claimed of the bytes, not even that two calls differ;
/// the call panics where the operating system has no random numbers to give.
#[verifier::external_body]
pub(crate) fn fresh_nonce() -> (nonce: [u8; NONCE_SIZE]) {
    chacha20poly1305::ChaCha20Poly1305::generate_nonce(&mut OsRng).into()
}

/// Whether a nonce is one that was drawn from the operating system's random
/// numbers.
pub closed spec fn drawn(nonce: Seq<u8>) -> bool {
    exists|n: [u8; NONCE_SIZE]| #[trigger] call_ensures(fresh_nonce, (), n) && n@ == nonce
}

/// Draws a nonce.
pub(crate) fn draw_nonce() -> (nonce: [u8; NONCE_SIZE])
    ensures
        drawn(nonce@),
{
    fresh_nonce()
}

} // verus!
