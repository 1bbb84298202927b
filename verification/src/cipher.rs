//! Authenticated encryption of individual shares.
//!
//! Each shareholder's share is framed as bytes and encrypted independently
//! under a pre-shared symmetric key, so holding one shareholder's ciphertext
//! reveals nothing unless the reconstruction threshold is met. The cipher is
//! fernet: AES-CBC with an HMAC, so decryption fails loudly on a tampered
//! token or a wrong key rather than returning a wrong plaintext.

use vstd::prelude::*;
use crate::codec::{share_bytes, decode_share_bytes, encode_share, decode_share};
use crate::errors::CryptoError;
use crate::field::FIELD_P;

verus! {

/// Declares fernet's cipher type; its values are opaque here.
#[verifier::external_type_specification]
#[verifier::external_body]
pub struct ExFernet(fernet::Fernet);

/// The plaintext that authenticated decryption under `key` accepts `token`
/// as carrying, or `None` where authentication or decryption fails. The HMAC
/// check and the block decryption depend on the key and the token alone, so
/// this is a pure function of the two.
pub uninterp spec fn fernet_plaintext(key: Seq<char>, token: Seq<char>) -> Option<Seq<u8>>;

/// Whether fernet accepts `key` as a key: 32 url-safe base64-coded bytes.
pub uninterp spec fn fernet_key_ok(key: Seq<char>) -> bool;

/// The share cipher: a fernet instance together with the key it was built
/// from. Only `new` constructs one, so the instance always matches the key.
pub struct ShareCipher {
    fernet: fernet::Fernet,
    key: String,
}

impl ShareCipher {
    /// The key this cipher encrypts and decrypts under.
    pub closed spec fn key_view(&self) -> Seq<char> {
        self.key@
    }

    /// Relies on fernet::Fernet::new: succeeds exactly on well-formed keys.
    #[verifier::external_body]
    pub fn new(key: &str) -> (r: Option<ShareCipher>)
        ensures
            r is Some <==> fernet_key_ok(key@),
            r matches Some(c) ==> c.key_view() == key@,
    {
        match fernet::Fernet::new(key) {
            Some(f) => Some(
                ShareCipher { fernet: f, key: key.to_string() },
            ),
            None => None,
        }
    }

    /// Relies on fernet::Fernet::encrypt: authenticated encryption whose
    /// token decrypts, under the same key, to exactly the input bytes. The
    /// token also depends on a random IV and on the clock, so nothing more
    /// is said of it.
    #[verifier::external_body]
    pub fn encrypt(&self, data: &Vec<u8>) -> (r: String)
        ensures
            fernet_plaintext(self.key_view(), r@) == Some(data@),
    {
        self.fernet.encrypt(data.as_slice())
    }

    /// Relies on fernet::Fernet::decrypt: returns the authenticated
    /// plaintext of the token under this key, and fails where there is
    /// none. It can also fail on a token stamped in the future relative to
    /// this machine's clock, so success is not promised.
    #[verifier::external_body]
    pub fn decrypt(&self, token: &str) -> (r: Option<Vec<u8>>)
        ensures
            r matches Some(b) ==> fernet_plaintext(self.key_view(), token@) == Some(b@),
            fernet_plaintext(self.key_view(), token@) is None ==> r is None,
    {
        match self.fernet.decrypt(token) {
            Ok(b) => Some(b),
            Err(_) => None,
        }
    }

    /// Relies on fernet::Fernet::generate_key: a fresh random key that
    /// fernet::Fernet::new accepts.
    #[verifier::external_body]
    pub fn generate_key() -> (r: String)
        ensures
            fernet_key_ok(r@),
    {
        fernet::Fernet::generate_key()
    }
}

/// Encrypts one share: frames it as bytes and encrypts the frame. The token
/// carries exactly this share under this cipher's key.
pub fn encrypt_share(cipher: &ShareCipher, share: &Vec<u64>) -> (r: String)
    ensures
        fernet_plaintext(cipher.key_view(), r@) == Some(share_bytes(share@)),
{
    let framed = encode_share(share);
    cipher.encrypt(&framed)
}

/// Decrypts one received token and checks its framing. A token that fails
/// authentication is rejected, never silently misread; a token whose
/// plaintext is not a well-formed share frame is rejected as malformed.
pub fn decrypt_share(cipher: &ShareCipher, token: &str) -> (r: Result<Vec<u64>, CryptoError>)
    ensures
        r matches Ok(s) ==> {
            &&& fernet_plaintext(cipher.key_view(), token@) matches Some(b)
                && decode_share_bytes(b) == Some(s@)
            &&& forall|j: int| 0 <= j < s@.len() ==> #[trigger] s@[j] < FIELD_P
        },
        fernet_plaintext(cipher.key_view(), token@) is None ==> r == Err::<
            Vec<u64>,
            CryptoError,
        >(CryptoError::DecryptionFailed),
        r matches Err(e) ==> {
            &&& (e == CryptoError::DecryptionFailed || e == CryptoError::MalformedShare)
            &&& (e == CryptoError::MalformedShare ==> (fernet_plaintext(
                cipher.key_view(),
                token@,
            ) matches Some(b) && decode_share_bytes(b) is None))
        },
{
    match cipher.decrypt(token) {
        None => Err(CryptoError::DecryptionFailed),
        Some(bytes) => decode_share(&bytes),
    }
}

/// Cipher round trip: a token produced by `encrypt_share` for a share
/// carries, under the same key, exactly that share's frame, and the frame
/// reads back to exactly that share. Together with the contract of
/// `decrypt_share`, any successful decryption of the token returns the
/// share unchanged, and no decryption ever returns a different share.
pub proof fn lemma_cipher_roundtrip(key: Seq<char>, token: Seq<char>, share: Seq<u64>)
    requires
        forall|j: int| 0 <= j < share.len() ==> #[trigger] share[j] < FIELD_P,
        fernet_plaintext(key, token) == Some(share_bytes(share)),
    ensures
        fernet_plaintext(key, token) matches Some(b) && decode_share_bytes(b) == Some(share),
{
    crate::codec::lemma_share_codec_roundtrip(share);
}

} // verus!
