//! Symmetric encryption of text under a secret, done by the `magic-crypt`
//! crate: AES-256 in CBC mode, the ciphertext encoded as base64.

use magic_crypt::MagicCryptTrait;
use vstd::prelude::*;

verus! {

/// `magic_crypt::MagicCryptError`, which is handed on and never looked into.
#[verifier::external_type_specification]
#[verifier::external_body]
pub struct ExMagicCryptError(magic_crypt::MagicCryptError);

/// The base64 ciphertext that `MagicCrypt256` makes of `text` under `secret`.
pub uninterp spec fn encrypted(secret: Seq<char>, text: Seq<char>) -> Seq<char>;

/// The text that `MagicCrypt256` recovers from `blob` under `secret`, if it
/// recovers one.
pub uninterp spec fn decrypted(secret: Seq<char>, blob: Seq<char>) -> Option<Seq<char>>;

/// Calls `MagicCrypt256::encrypt_str_to_base64` with a cipher made from `secret`
/// and no initialisation vector. The ciphertext depends on `secret` and `text`
/// alone, and decrypting it under the same secret gives `text` back.
#[verifier::external_body]
pub(crate) fn encrypt(secret: &str, text: &str) -> (blob: String)
    ensures
        blob@ == encrypted(secret@, text@),
        decrypted(secret@, blob@) == Some(text@),
{
    magic_crypt::MagicCrypt256::new(secret, None::<String>).encrypt_str_to_base64(text)
}

/// Calls `MagicCrypt256::decrypt_base64_to_string` with a cipher made from
/// `secret` and no initialisation vector. It fails where `blob` is no base64,
/// where the padding found after decryption is wrong, and where the bytes found
/// are no UTF-8 text.
#[verifier::external_body]
pub(crate) fn decrypt(secret: &str, blob: &str) -> (text: Result<String, magic_crypt::MagicCryptError>)
    ensures
        match text {
            Ok(t) => decrypted(secret@, blob@) == Some(t@),
            Err(_) => decrypted(secret@, blob@) is None,
        },
{
    magic_crypt::MagicCrypt256::new(secret, None::<String>).decrypt_base64_to_string(blob)
}

} // verus!
