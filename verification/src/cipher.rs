//! The block cipher that hides the directory.
//!
//! Every directory block is stored encrypted with Blowfish in ECB mode,
//! little-endian words, under one key that all archives of this family share.

use blowfish::cipher::generic_array::GenericArray;
use blowfish::cipher::{BlockDecrypt, KeyInit};
use blowfish::BlowfishLE;
use vstd::prelude::*;

verus! {

/// The key of this archive family.
pub open spec fn archive_key() -> Seq<u8> {
    seq![0x32u8, 0xCEu8, 0xDDu8, 0x7Cu8, 0xBCu8, 0xA8u8]
}

/// `data` decrypted under `key`, eight bytes at a time.
pub uninterp spec fn blowfish_decrypted(key: Seq<u8>, data: Seq<u8>) -> Seq<u8>;

/// Keys a cipher with `BlowfishLE::new_from_slice` and decrypts `data` with
/// `BlockDecrypt::decrypt_blocks`.
///
/// Trusted: the result is named, not defined. The contract claims that it
/// depends on the key and the data alone and is as long as the data. Keys
/// outside 4 to 56 bytes, which the cipher refuses, and data that is not made
/// of whole blocks are left out.
#[verifier::external_body]
fn blowfish_decrypt(key: &[u8], data: &[u8]) -> (plain: Vec<u8>)
    requires
        4 <= key@.len() <= 56,
        data@.len() % 8 == 0,
    ensures
        plain@ == blowfish_decrypted(key@, data@),
        plain@.len() == data@.len(),
{
    let cipher = BlowfishLE::new_from_slice(key).unwrap();
    let mut blocks: Vec<_> = data.chunks_exact(8).map(GenericArray::clone_from_slice).collect();
    cipher.decrypt_blocks(&mut blocks);
    blocks.concat()
}

/// Decrypts `data`, a whole number of cipher blocks, under the archive key.
pub(crate) fn decrypt(data: &[u8]) -> (plain: Vec<u8>)
    requires
        data@.len() % 8 == 0,
    ensures
        plain@ == blowfish_decrypted(archive_key(), data@),
        plain@.len() == data@.len(),
{
    let key: [u8; 6] = [0x32, 0xCE, 0xDD, 0x7C, 0xBC, 0xA8];
    blowfish_decrypt(&key, data)
}

} // verus!
