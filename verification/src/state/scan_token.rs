//! The key that seals the continuation tokens of a scan.
//!
//! It is derived from the node's identity, so tokens survive a restart, and from
//! a label of its own, so it is no other secret of the node.

use hmac::Mac;
use vstd::prelude::*;
use vstd::string::*;
use vstd::utf8::encode_utf8;

verus! {

/// The salt of the derivation.
pub const SCAN_TOKEN_KEY_SALT: &'static str = "gitlawb/hkdf-salt/ipfs-scan-token";

/// The label of the derivation. Another version in it makes another key.
pub const SCAN_TOKEN_KEY_INFO: &'static str = "gitlawb/ipfs-scan-token/v1";

/// The HMAC with SHA-256 of `data` under `key`.
pub uninterp spec fn hmac_sha256_of(key: Seq<u8>, data: Seq<u8>) -> Seq<u8>;

/// `hmac::Hmac::<sha2::Sha256>` (`new_from_slice`, which takes a key of any
/// length, `update`, `finalize`): the result is determined by key and data, and
/// has 32 bytes.
#[verifier::external_body]
fn hmac_sha256(key: &Vec<u8>, data: &Vec<u8>) -> (r: Vec<u8>)
    ensures
        r@ == hmac_sha256_of(key@, data@),
        r@.len() == 32,
{
    let mut mac = hmac::Hmac::<sha2::Sha256>::new_from_slice(key).expect("any key length");
    mac.update(data);
    mac.finalize().into_bytes().to_vec()
}

/// The sealing key of a node with this seed: HKDF with SHA-256, extract and one
/// block of expand.
pub open spec fn scan_token_key(seed: Seq<u8>) -> Seq<u8> {
    hmac_sha256_of(
        hmac_sha256_of(encode_utf8(SCAN_TOKEN_KEY_SALT@), seed),
        encode_utf8(SCAN_TOKEN_KEY_INFO@).push(1u8),
    )
}

/// The sealing key of a node with this seed.
pub fn derive_scan_token_key(seed: &Vec<u8>) -> (r: Vec<u8>)
    ensures
        r@ == scan_token_key(seed@),
        r@.len() == 32,
{
    let salt = vstd::slice::slice_to_vec(SCAN_TOKEN_KEY_SALT.as_bytes());
    let prk = hmac_sha256(&salt, seed);
    expand_scan_token_key(&prk)
}

/// The second half of the derivation, from the extracted key.
pub fn expand_scan_token_key(prk: &Vec<u8>) -> (r: Vec<u8>)
    ensures
        r@ == hmac_sha256_of(prk@, encode_utf8(SCAN_TOKEN_KEY_INFO@).push(1u8)),
        r@.len() == 32,
{
    let mut info = vstd::slice::slice_to_vec(SCAN_TOKEN_KEY_INFO.as_bytes());
    info.push(1u8);
    hmac_sha256(prk, &info)
}

/// A node that comes back with the same seed has the same sealing key, so the
/// tokens that it sealed before still open.
pub proof fn the_key_survives_a_restart(before: Seq<u8>, after: Seq<u8>)
    requires
        before == after,
    ensures
        scan_token_key(before) == scan_token_key(after),
{
}

/// The derivation in words: the salt is the key of the extraction, the seed its data,
/// and the expansion is over the label and the number one.
pub proof fn the_derivation_in_words(seed: Seq<u8>)
    ensures
        exists|extracted: Seq<u8>|
            extracted == hmac_sha256_of(
                encode_utf8("gitlawb/hkdf-salt/ipfs-scan-token"@),
                seed,
            ) && scan_token_key(seed) == #[trigger] hmac_sha256_of(
                extracted,
                encode_utf8("gitlawb/ipfs-scan-token/v1"@) + seq![1u8],
            ),
{
    let label = encode_utf8("gitlawb/ipfs-scan-token/v1"@);
    assert(label.push(1u8) =~= label + seq![1u8]);
    let extracted = hmac_sha256_of(encode_utf8("gitlawb/hkdf-salt/ipfs-scan-token"@), seed);
    assert(scan_token_key(seed) == hmac_sha256_of(extracted, label + seq![1u8]));
}

} // verus!
