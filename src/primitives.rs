use vstd::prelude::*;

use aes::Aes128;
use base64::engine::general_purpose::STANDARD;
use base64::Engine;
use cipher::block_padding::Pkcs7;
use cipher::{BlockDecryptMut, KeyInit};

verus! {

/// The plaintext that AES-128 in ECB mode with PKCS#7 unpadding gives for
/// `data` under `key`, or `None` where the input or its padding is malformed.
pub uninterp spec fn aes128_ecb_pkcs7_decrypt(key: Seq<u8>, data: Seq<u8>) -> Option<Seq<u8>>;

/// The bytes that standard base64 (with padding) decodes `text` to, or `None`
/// where `text` is not valid base64.
pub uninterp spec fn base64_standard_decode(text: Seq<u8>) -> Option<Seq<u8>>;

/// The characters that `bytes` hold as UTF-8, or `None` where they are not
/// valid UTF-8.
pub uninterp spec fn utf8_decode(bytes: Seq<u8>) -> Option<Seq<char>>;

/// Relies on `aes::Aes128` with `cipher::BlockDecryptMut::decrypt_padded_vec_mut::<Pkcs7>`:
/// ECB decryption of each 16-byte block, then PKCS#7 unpadding. It fails on an
/// empty input or one whose length is not a multiple of 16, and strips between
/// 1 and 16 bytes on success.
#[verifier::external_body]
pub(crate) fn aes128_decrypt(data: &[u8], key: &[u8; 16]) -> (r: Option<Vec<u8>>)
    ensures
        match r {
            Some(v) => aes128_ecb_pkcs7_decrypt(key@, data@) == Some(v@),
            None => aes128_ecb_pkcs7_decrypt(key@, data@) is None,
        },
        (data@.len() == 0 || data@.len() % 16 != 0) ==> r is None,
        r matches Some(v) ==> data@.len() - 16 <= v@.len() < data@.len(),
{
    Aes128::new(key.into()).decrypt_padded_vec_mut::<Pkcs7>(data).ok()
}

/// Relies on `base64::Engine::decode` of the `STANDARD` engine (standard
/// alphabet, padding required).
#[verifier::external_body]
pub(crate) fn base64_decode(text: &[u8]) -> (r: Option<Vec<u8>>)
    ensures
        match r {
            Some(v) => base64_standard_decode(text@) == Some(v@),
            None => base64_standard_decode(text@) is None,
        },
{
    STANDARD.decode(text).ok()
}

/// Relies on `String::from_utf8`, which succeeds exactly on valid UTF-8.
#[verifier::external_body]
pub(crate) fn utf8_string(bytes: Vec<u8>) -> (r: Option<String>)
    ensures
        match r {
            Some(s) => utf8_decode(bytes@) == Some(s@),
            None => utf8_decode(bytes@) is None,
        },
{
    String::from_utf8(bytes).ok()
}

} // verus!
