//! Chunked authenticated encryption of a stream: a key derived from the
//! password, one random nonce per stream written once as a header, and each
//! data piece sealed on its own under that (key, nonce) pair.
//!
//! Every piece of one stream is sealed under the same nonce. That is the
//! format of the files this library writes, and it is kept for compatibility,
//! but it is a known weakness of AES-GCM: a scheme with one nonce per piece
//! would only need a different `CipherState`.
use aes_gcm::aead::{Aead, KeyInit, OsRng};
use aes_gcm::{Aes256Gcm, Key, Nonce};
use rand::RngCore;
use sha2::{Digest, Sha256};
use vstd::prelude::*;
use vstd::string::StringSliceAdditionalSpecFns;

verus! {

pub const KEY_LEN: usize = 32;

pub const NONCE_LEN: usize = 12;

/// Authentication tag appended to every sealed piece.
pub const TAG_LEN: usize = 16;

/// The largest plaintext AES-GCM seals.
pub const MAX_PLAINTEXT: u64 = 0x10_0000_0000;

/// The SHA-256 digest of `data`.
pub uninterp spec fn sha256_digest(data: Seq<u8>) -> Seq<u8>;

/// AES-256-GCM ciphertext and tag of `plain`, with no associated data.
pub uninterp spec fn aes256gcm_seal(key: Seq<u8>, nonce: Seq<u8>, plain: Seq<u8>) -> Seq<u8>;

/// AES-256-GCM opening of `sealed`: the plaintext when the tag checks.
pub uninterp spec fn aes256gcm_open(key: Seq<u8>, nonce: Seq<u8>, sealed: Seq<u8>) -> Option<Seq<u8>>;

/// Relies on sha2's `Sha256::digest`: the 32-byte digest of `data`.
#[verifier::external_body]
fn sha256(data: &[u8]) -> (r: Vec<u8>)
    ensures
        r@ == sha256_digest(data@),
        r@.len() == KEY_LEN,
{
    Sha256::digest(data).to_vec()
}

/// Relies on rand's `RngCore::try_fill_bytes` on aes-gcm's `OsRng`: fills
/// `buf` with bytes from the operating system, or reports that it could not.
#[verifier::external_body]
fn fill_random(buf: &mut Vec<u8>) -> (ok: bool)
    ensures
        final(buf)@.len() == old(buf)@.len(),
{
    OsRng.try_fill_bytes(buf.as_mut_slice()).is_ok()
}

/// Relies on aes-gcm's `Aes256Gcm::new` and `Aead::encrypt`: the ciphertext
/// followed by a 16-byte tag; it fails only on plaintexts over 2^36 bytes.
#[verifier::external_body]
fn aes_seal(key: &[u8], nonce: &[u8], plain: &[u8]) -> (r: Option<Vec<u8>>)
    requires
        key@.len() == KEY_LEN,
        nonce@.len() == NONCE_LEN,
    ensures
        r matches Some(c) ==> c@ == aes256gcm_seal(key@, nonce@, plain@) && c@.len() == plain@.len()
            + TAG_LEN,
        plain@.len() <= MAX_PLAINTEXT ==> r is Some,
{
    let cipher = Aes256Gcm::new(Key::<Aes256Gcm>::from_slice(key));
    cipher.encrypt(Nonce::from_slice(nonce), plain).ok()
}

/// Relies on aes-gcm's `Aes256Gcm::new` and `Aead::decrypt`: the plaintext
/// when the tag of `sealed` checks under (key, nonce), else nothing.
#[verifier::external_body]
pub(crate) fn aes_open(key: &[u8], nonce: &[u8], sealed: &[u8]) -> (r: Option<Vec<u8>>)
    requires
        key@.len() == KEY_LEN,
        nonce@.len() == NONCE_LEN,
    ensures
        r is Some <==> aes256gcm_open(key@, nonce@, sealed@) is Some,
        r matches Some(p) ==> aes256gcm_open(key@, nonce@, sealed@) == Some(p@),
{
    let cipher = Aes256Gcm::new(Key::<Aes256Gcm>::from_slice(key));
    cipher.decrypt(Nonce::from_slice(nonce), sealed).ok()
}

/// The key derived from a password: the SHA-256 digest of its UTF-8 bytes.
pub open spec fn key_of(password: Seq<u8>) -> Seq<u8> {
    sha256_digest(password)
}

/// What the primary output receives for a data piece: nothing for an empty
/// piece, else the piece sealed under (key, nonce).
pub open spec fn sealed_piece(key: Seq<u8>, nonce: Seq<u8>, data: Seq<u8>) -> Seq<u8> {
    if data.len() == 0 {
        Seq::empty()
    } else {
        aes256gcm_seal(key, nonce, data)
    }
}

/// The key and nonce of one stream's encryption.
pub struct CipherState {
    pub key: Vec<u8>,
    pub nonce: Vec<u8>,
}

impl CipherState {
    pub open spec fn wf(&self) -> bool {
        &&& self.key@.len() == KEY_LEN
        &&& self.nonce@.len() == NONCE_LEN
    }

    /// Derives the key from `password` and draws a fresh random nonce;
    /// nothing when the operating system has no random bytes to give.
    pub fn new(password: &str) -> (r: Option<CipherState>)
        ensures
            r matches Some(c) ==> c.wf() && c.key@ == key_of(password.spec_bytes()),
    {
        let key = sha256(password.as_bytes());
        let mut nonce: Vec<u8> = Vec::new();
        let mut i: usize = 0;
        while i < NONCE_LEN
            invariant
                i <= NONCE_LEN,
                nonce@.len() == i,
            decreases NONCE_LEN - i,
        {
            nonce.push(0);
            i = i + 1;
        }
        if fill_random(&mut nonce) {
            Some(CipherState { key, nonce })
        } else {
            None
        }
    }

    /// Uses a known key and nonce.
    pub fn with_nonce(key: Vec<u8>, nonce: Vec<u8>) -> (r: CipherState)
        requires
            key@.len() == KEY_LEN,
            nonce@.len() == NONCE_LEN,
        ensures
            r.key == key,
            r.nonce == nonce,
            r.wf(),
    {
        CipherState { key, nonce }
    }

    /// The header of an encrypted output: the nonce.
    pub fn header(&self) -> (r: Vec<u8>)
        ensures
            r@ == self.nonce@,
    {
        self.nonce.clone()
    }

    /// Seals one data piece; fails only where the cipher refuses it.
    pub fn seal_piece(&self, data: &[u8]) -> (r: Option<Vec<u8>>)
        requires
            self.wf(),
        ensures
            r matches Some(c) ==> c@ == sealed_piece(self.key@, self.nonce@, data@),
            data@.len() <= MAX_PLAINTEXT ==> r is Some,
    {
        if data.len() == 0 {
            Some(Vec::new())
        } else {
            aes_seal(self.key.as_slice(), self.nonce.as_slice(), data)
        }
    }
}

} // verus!
